//! The compiled code computes what the source means: run on the machine,
//! the instructions for an expression leave the expression's value in the
//! accumulator and leave every slot below the first free one as it was.

use vstd::prelude::*;
use crate::ast::{binding_count, Op1, Op2, SpecExpr};
use crate::codegen::{
    acc, addressable, code_of, combine, frame_addressable, let_code, let_need,
    load, slot_ref, stack_need, store, unary_step, Scope, FIRST_SLOT,
};
use crate::instr::{dst_of, Instr, Val};
use crate::eval::{apply1, apply2, eval, eval_let, Values};
use crate::machine::{run, slot_of, step, Machine};

verus! {

/// The values that the names in scope have on a machine: each name's value
/// is what its slot holds.
pub open spec fn values_in(env: Scope, m: Machine) -> Values {
    Map::new(|name: Seq<char>| env.contains_key(name), |name: Seq<char>| m.slots[env[name] as int])
}

/// Every name in scope is bound to an addressable slot below `si` that
/// holds something on the machine.
pub open spec fn scope_live(env: Scope, si: int, m: Machine) -> bool {
    forall|name: Seq<char>|
        env.contains_key(name) ==> {
            &&& addressable(#[trigger] env[name] as int)
            &&& env[name] < si
            &&& m.slots.contains_key(env[name] as int)
        }
}

/// Below slot `si` the two machines hold the same.
pub open spec fn same_below(a: Machine, b: Machine, si: int) -> bool {
    forall|k: int|
        #![trigger a.slots.contains_key(k)]
        #![trigger b.slots.contains_key(k)]
        k < si ==> {
            &&& a.slots.contains_key(k) == b.slots.contains_key(k)
            &&& a.slots.contains_key(k) ==> a.slots[k] == b.slots[k]
        }
}

/// Run from `m`, the code ends with `value` in the accumulator and with
/// the slots below `si` as they were.
pub open spec fn computes(m: Machine, code: Seq<Instr>, value: int, si: int) -> bool {
    match run(m, code) {
        Some(after) => after.acc == value && same_below(m, after, si),
        None => false,
    }
}

/// Running a sequence is running its first part and then the rest.
pub proof fn lemma_run_concat(m: Machine, first: Seq<Instr>, rest: Seq<Instr>)
    ensures
        run(m, first + rest) == match run(m, first) {
            Some(mid) => run(mid, rest),
            None => None,
        },
    decreases first.len(),
{
    if first.len() == 0 {
        assert(first + rest =~= rest);
    } else {
        assert((first + rest).drop_first() =~= first.drop_first() + rest);
        assert((first + rest)[0] == first[0]);
        match step(m, first[0]) {
            Some(next) => lemma_run_concat(next, first.drop_first(), rest),
            None => {},
        }
    }
}

/// Running a sequence with one more instruction is running the sequence
/// and then that instruction.
pub proof fn lemma_run_push(m: Machine, code: Seq<Instr>, last: Instr)
    ensures
        run(m, code.push(last)) == match run(m, code) {
            Some(mid) => step(mid, last),
            None => None,
        },
{
    assert(code.push(last) =~= code + seq![last]);
    lemma_run_concat(m, code, seq![last]);
    assert forall|mid: Machine| run(mid, seq![last]) == step(mid, last) by {
        lemma_run_one(mid, last);
    }
}

/// Running one instruction is one step.
pub proof fn lemma_run_one(m: Machine, i: Instr)
    ensures
        run(m, seq![i]) == step(m, i),
{
    let code = seq![i];
    assert(code.drop_first() =~= Seq::<Instr>::empty());
    assert(code[0] == i);
    match step(m, i) {
        Some(next) => {
            assert(run(next, code.drop_first()) == Some(next));
        },
        None => {},
    }
}

/// The operand of an addressable slot names that slot.
pub proof fn lemma_slot_ref(slot: int)
    requires
        addressable(slot),
    ensures
        slot_of(slot_ref(slot)) == Some(slot),
{
}

/// The machine after the accumulator has been saved in slot `si`.
pub open spec fn saved(m: Machine, si: int) -> Machine {
    Machine { acc: m.acc, slots: m.slots.insert(si, m.acc) }
}

/// Saving the accumulator in an addressable slot changes that slot only.
proof fn lemma_store(m: Machine, si: int)
    requires
        addressable(si),
    ensures
        step(m, store(si)) == Some(saved(m, si)),
        same_below(m, saved(m, si), si),
{
    lemma_slot_ref(si);
}

/// What holds below a slot holds below every lower slot, and holding the
/// same below a slot carries over from machine to machine.
proof fn lemma_same_below_chain(a: Machine, b: Machine, c: Machine, lo: int, mid: int, hi: int)
    requires
        lo <= mid,
        lo <= hi,
        same_below(a, b, mid),
        same_below(b, c, hi),
    ensures
        same_below(a, c, lo),
{
    assert forall|k: int|
        #![trigger a.slots.contains_key(k)]
        #![trigger c.slots.contains_key(k)]
        k < lo implies {
        &&& a.slots.contains_key(k) == c.slots.contains_key(k)
        &&& a.slots.contains_key(k) ==> a.slots[k] == c.slots[k]
    } by {
        assert(a.slots.contains_key(k) == b.slots.contains_key(k));
        assert(b.slots.contains_key(k) == c.slots.contains_key(k));
    }
}

/// A scope that is live on a machine is live, with the same values, on
/// every machine that holds the same below the first free slot, also with
/// a later slot as the first free one.
proof fn lemma_scope_kept(env: Scope, si: int, later: int, m: Machine, after: Machine)
    requires
        si <= later,
        scope_live(env, si, m),
        same_below(m, after, si),
    ensures
        scope_live(env, later, after),
        values_in(env, after) == values_in(env, m),
{
    assert forall|name: Seq<char>| env.contains_key(name) implies {
        &&& addressable(#[trigger] env[name] as int)
        &&& env[name] < later
        &&& after.slots.contains_key(env[name] as int)
        &&& after.slots[env[name] as int] == m.slots[env[name] as int]
    } by {
        let k = env[name] as int;
        assert(m.slots.contains_key(k));
        assert(after.slots.contains_key(k));
    }
    assert(values_in(env, after) =~= values_in(env, m));
}

/// A scope extended by a binding to slot `si`, on the machine that has the
/// binding's value saved there: it is live with `si + 1` free, and the
/// values in it are the old ones with the binding's value added.
proof fn lemma_scope_extended(env: Scope, si: int, name: Seq<char>, m: Machine, after: Machine)
    requires
        addressable(si),
        scope_live(env, si, m),
        same_below(m, after, si),
    ensures
        scope_live(env.insert(name, si as i32), si + 1, saved(after, si)),
        values_in(env.insert(name, si as i32), saved(after, si)) == values_in(env, m).insert(
            name,
            after.acc,
        ),
{
    let inner = env.insert(name, si as i32);
    let m2 = saved(after, si);
    lemma_scope_kept(env, si, si, m, after);
    assert forall|other: Seq<char>| inner.contains_key(other) implies {
        &&& addressable(#[trigger] inner[other] as int)
        &&& inner[other] < si + 1
        &&& m2.slots.contains_key(inner[other] as int)
    } by {
        if other != name {
            assert(env.contains_key(other));
            assert(addressable(env[other] as int));
        }
    }
    assert forall|other: Seq<char>| inner.contains_key(other) implies #[trigger] values_in(
        inner,
        m2,
    )[other] == values_in(env, m).insert(name, after.acc)[other] by {
        if other != name {
            assert(env.contains_key(other));
            assert(addressable(env[other] as int));
            assert(m2.slots[env[other] as int] == after.slots[env[other] as int]);
        }
    }
    assert(values_in(inner, m2) =~= values_in(env, m).insert(name, after.acc));
}

/// Code that computes a value, followed by one instruction that works on
/// the accumulator alone.
proof fn lemma_then_unary(m: Machine, code: Seq<Instr>, value: int, si: int, op: Op1)
    requires
        computes(m, code, value, si),
    ensures
        computes(m, code.push(unary_step(op)), apply1(op, value), si),
{
    lemma_run_push(m, code, unary_step(op));
}

/// The code of a binary operation computes `left op right`, given that
/// the code of each operand computes its value where it stands.
proof fn lemma_binary_runs(
    m: Machine,
    first: Seq<Instr>,
    second: Seq<Instr>,
    op: Op2,
    si: int,
    left: int,
    right: int,
)
    requires
        addressable(si),
        computes(m, first, left, si),
        computes(saved(run(m, first)->0, si), second, right, si + 1),
    ensures
        computes(
            m,
            first.push(store(si)) + second + combine(op, si),
            apply2(op, left, right),
            si,
        ),
{
    let m1 = run(m, first)->0;
    let m2 = saved(m1, si);
    let m3 = run(m2, second)->0;
    lemma_store(m1, si);
    lemma_run_push(m, first, store(si));
    assert(run(m, first.push(store(si))) == Some(m2));
    lemma_run_concat(m, first.push(store(si)), second);
    assert(run(m, first.push(store(si)) + second) == Some(m3));
    assert(m2.slots.contains_key(si) && m2.slots[si] == left);
    assert(m3.slots.contains_key(si) && m3.slots[si] == left);
    lemma_combine(op, si, m3);
    let m4 = run(m3, combine(op, si))->0;
    lemma_run_concat(m, first.push(store(si)) + second, combine(op, si));
    assert(run(m, first.push(store(si)) + second + combine(op, si)) == Some(m4));
    lemma_same_below_chain(m, m1, m2, si, si, si);
    lemma_same_below_chain(m, m2, m3, si, si, si + 1);
    lemma_same_below_chain(m, m3, m4, si, si, si);
}

/// The code of a binding and of what follows it computes the value of
/// what follows, given that each part computes its value where it stands.
proof fn lemma_binding_runs(
    m: Machine,
    first: Seq<Instr>,
    rest: Seq<Instr>,
    si: int,
    bound: int,
    value: int,
)
    requires
        addressable(si),
        computes(m, first, bound, si),
        computes(saved(run(m, first)->0, si), rest, value, si + 1),
    ensures
        computes(m, first.push(store(si)) + rest, value, si),
{
    let m1 = run(m, first)->0;
    let m2 = saved(m1, si);
    let m3 = run(m2, rest)->0;
    lemma_store(m1, si);
    lemma_run_push(m, first, store(si));
    assert(run(m, first.push(store(si))) == Some(m2));
    lemma_run_concat(m, first.push(store(si)), rest);
    lemma_same_below_chain(m, m1, m2, si, si, si);
    lemma_same_below_chain(m, m2, m3, si, si, si + 1);
}

/// The instructions for an expression compute its value.
///
/// Let the expression compile, with `si` free and `env` in scope, to some
/// code; let every slot that the code may write be addressable, and every
/// name in scope be bound to a slot below `si` that holds something. Then
/// the code runs to the end from `m`, leaves in the accumulator the value
/// of the expression under the values that the names have on `m`, and
/// leaves every slot below `si` as it was: no temporary and no binding is
/// ever put where a live value is.
pub proof fn theorem_code_computes_value(e: SpecExpr, si: int, env: Scope, m: Machine)
    requires
        code_of(e, si, env) is Ok,
        frame_addressable(si, stack_need(e)),
        scope_live(env, si, m),
    ensures
        computes(m, code_of(e, si, env)->Ok_0, eval(e, values_in(env, m)), si),
    decreases e, binding_count(e) + 1,
{
    let values = values_in(env, m);
    match e {
        SpecExpr::Number(n) => {
            lemma_run_one(m, Instr::IMov(acc(), Val::Imm(n)));
        },
        SpecExpr::Id(name) => {
            let k = env[name] as int;
            assert(addressable(k) && m.slots.contains_key(k));
            lemma_slot_ref(k);
            lemma_run_one(m, load(k));
            assert(values[name] == m.slots[k]);
        },
        SpecExpr::UnOp(op, arg) => {
            theorem_code_computes_value(*arg, si, env, m);
            lemma_then_unary(m, code_of(*arg, si, env)->Ok_0, eval(*arg, values), si, op);
        },
        SpecExpr::BinOp(op, left, right) => {
            let first = code_of(*left, si, env)->Ok_0;
            let second = code_of(*right, si + 1, env)->Ok_0;
            assert(addressable(si));
            assert(frame_addressable(si, stack_need(*left)));
            assert(frame_addressable(si + 1, stack_need(*right)));
            theorem_code_computes_value(*left, si, env, m);
            let m1 = run(m, first)->0;
            let m2 = saved(m1, si);
            lemma_store(m1, si);
            lemma_same_below_chain(m, m1, m2, si, si, si);
            lemma_scope_kept(env, si, si + 1, m, m2);
            theorem_code_computes_value(*right, si + 1, env, m2);
            lemma_binary_runs(
                m,
                first,
                second,
                op,
                si,
                eval(*left, values),
                eval(*right, values),
            );
        },
        SpecExpr::Let(_, _) => {
            lemma_let_computes(e, 0, si, env, m);
        },
    }
}

/// The code for a whole expression, compiled with nothing in scope and
/// the first slot free, computes the expression's value from any state of
/// the machine, and leaves the slots kept for linkage as they were.
pub proof fn theorem_whole_expression(e: SpecExpr, m: Machine)
    requires
        code_of(e, FIRST_SLOT as int, Map::empty()) is Ok,
        frame_addressable(FIRST_SLOT as int, stack_need(e)),
    ensures
        computes(
            m,
            code_of(e, FIRST_SLOT as int, Map::empty())->Ok_0,
            eval(e, Map::empty()),
            FIRST_SLOT as int,
        ),
{
    let env: Scope = Map::empty();
    theorem_code_computes_value(e, FIRST_SLOT as int, env, m);
    assert(values_in(env, m) =~= Map::empty());
}

/// The combining instructions of a binary operation, run with the left
/// operand in slot `si` and the right one in the accumulator, leave
/// `left op right` in the accumulator and change no slot but `si`.
proof fn lemma_combine(op: Op2, si: int, m: Machine)
    requires
        addressable(si),
        m.slots.contains_key(si),
    ensures
        run(m, combine(op, si)) matches Some(after) && after.acc == apply2(
            op,
            m.slots[si],
            m.acc,
        ) && same_below(m, after, si),
{
    lemma_slot_ref(si);
    match op {
        Op2::Plus => {
            lemma_run_one(m, Instr::IAdd(acc(), slot_ref(si)));
        },
        Op2::Minus => {
            let sub = Instr::ISub(slot_ref(si), acc());
            lemma_run_one(m, sub);
            lemma_run_push(m, seq![sub], load(si));
            assert(seq![sub].push(load(si)) =~= combine(op, si));
        },
        Op2::Times => {
            lemma_run_one(m, Instr::IMul(acc(), slot_ref(si)));
            assert(m.acc * m.slots[si] == m.slots[si] * m.acc) by (nonlinear_arith);
        },
    }
}

/// The instructions for the bindings of a `let` from position `k` on, and
/// for its body, compute the value of the `let` given the bindings before
/// `k`.
proof fn lemma_let_computes(e: SpecExpr, k: int, si: int, env: Scope, m: Machine)
    requires
        e is Let,
        0 <= k <= binding_count(e),
        let_code(e, k, si, env) is Ok,
        frame_addressable(si, let_need(e, k)),
        scope_live(env, si, m),
    ensures
        computes(m, let_code(e, k, si, env)->Ok_0, eval_let(e, k, values_in(env, m)), si),
    decreases e, binding_count(e) - k,
{
    let binds = e->Let_0;
    let body = e->Let_1;
    let values = values_in(env, m);
    if k < binds.len() {
        let name = binds[k].0;
        let first = code_of(binds[k].1, si, env)->Ok_0;
        let inner = env.insert(name, si as i32);
        let rest = let_code(e, k + 1, si + 1, inner)->Ok_0;
        assert(addressable(si));
        assert(frame_addressable(si, stack_need(binds[k].1)));
        assert(frame_addressable(si + 1, let_need(e, k + 1)));
        theorem_code_computes_value(binds[k].1, si, env, m);
        let m1 = run(m, first)->0;
        let m2 = saved(m1, si);
        lemma_scope_extended(env, si, name, m, m1);
        lemma_let_computes(e, k + 1, si + 1, inner, m2);
        lemma_binding_runs(
            m,
            first,
            rest,
            si,
            eval(binds[k].1, values),
            eval_let(e, k + 1, values.insert(name, m1.acc)),
        );
    } else {
        theorem_code_computes_value(*body, si, env, m);
    }
}

/// The code for a number literal leaves that number in the accumulator and
/// changes nothing else, whatever was in scope and wherever the free slots
/// begin.
pub proof fn law_number_yields_itself(n: i32, si: int, env: Scope, m: Machine)
    ensures
        code_of(SpecExpr::Number(n), si, env) matches Ok(code) && run(m, code) == Some(
            Machine { acc: n as int, slots: m.slots },
        ),
{
    lemma_run_one(m, Instr::IMov(acc(), Val::Imm(n)));
}

/// Every instruction of the code writes the accumulator or a slot from
/// `lo` up to, not including, `hi`.
pub open spec fn writes_within(code: Seq<Instr>, lo: int, hi: int) -> bool {
    forall|j: int|
        0 <= j < code.len() ==> match slot_of(dst_of(#[trigger] code[j])) {
            Some(k) => lo <= k < hi,
            None => dst_of(code[j]) == acc(),
        }
}

/// The code for an expression writes no slot but the `stack_need` ones
/// from the first free slot on.
pub proof fn law_writes_stay_in_frame(e: SpecExpr, si: int, env: Scope)
    requires
        code_of(e, si, env) is Ok,
        frame_addressable(si, stack_need(e)),
    ensures
        writes_within(code_of(e, si, env)->Ok_0, si, si + stack_need(e)),
    decreases e, binding_count(e) + 1,
{
    match e {
        SpecExpr::Number(_) => {},
        SpecExpr::Id(_) => {},
        SpecExpr::UnOp(_, arg) => {
            law_writes_stay_in_frame(*arg, si, env);
        },
        SpecExpr::BinOp(op, left, right) => {
            law_writes_stay_in_frame(*left, si, env);
            law_writes_stay_in_frame(*right, si + 1, env);
            assert(addressable(si));
            lemma_slot_ref(si);
        },
        SpecExpr::Let(_, _) => {
            lemma_let_writes_stay_in_frame(e, 0, si, env);
        },
    }
}

/// The code for the bindings of a `let` from position `k` on, and for its
/// body, writes no slot but the `let_need` ones from the first free slot
/// on.
proof fn lemma_let_writes_stay_in_frame(e: SpecExpr, k: int, si: int, env: Scope)
    requires
        e is Let,
        0 <= k <= binding_count(e),
        let_code(e, k, si, env) is Ok,
        frame_addressable(si, let_need(e, k)),
    ensures
        writes_within(let_code(e, k, si, env)->Ok_0, si, si + let_need(e, k)),
    decreases e, binding_count(e) - k,
{
    let binds = e->Let_0;
    let body = e->Let_1;
    if k < binds.len() {
        let inner = env.insert(binds[k].0, si as i32);
        law_writes_stay_in_frame(binds[k].1, si, env);
        assert(addressable(si));
        lemma_slot_ref(si);
        lemma_let_writes_stay_in_frame(e, k + 1, si + 1, inner);
    } else {
        law_writes_stay_in_frame(*body, si, env);
    }
}

} // verus!
