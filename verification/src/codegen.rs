//! The code generator: one traversal of an expression that resolves names
//! to stack slots and emits the instructions that leave the expression's
//! value in the accumulator.

use vstd::prelude::*;
use crate::ast::{binding_count, bindings_model, lemma_let_model, Expr, Op1, Op2, SpecExpr};
use crate::env::{binds_slot, bound_slots, contents, empty_env, extend, lookup};
use crate::error::{CompileError, SpecError};
use crate::instr::{listing, render, Instr, Reg, Val};

verus! {

/// The model of an environment: the slot of each bound name.
pub type Scope = Map<Seq<char>, i32>;

/// The byte displacement of a slot from the stack pointer: slot `k` is the
/// word `8 * k` bytes below it.
pub open spec fn displacement(slot: int) -> int {
    -8 * slot
}

/// A slot is addressable when its displacement fits an operand.
pub open spec fn addressable(slot: int) -> bool {
    i32::MIN <= displacement(slot) <= i32::MAX
}

/// The operand that names a slot.
pub open spec fn slot_ref(slot: int) -> Val {
    Val::RegOffset(Reg::RSP, displacement(slot) as i32)
}

/// The accumulator as an operand.
pub open spec fn acc() -> Val {
    Val::Reg(Reg::RAX)
}

/// Saves the accumulator in a slot.
pub open spec fn store(slot: int) -> Instr {
    Instr::IMov(slot_ref(slot), acc())
}

/// Loads the accumulator from a slot.
pub open spec fn load(slot: int) -> Instr {
    Instr::IMov(acc(), slot_ref(slot))
}

/// The instruction of a unary operation on the accumulator.
pub open spec fn unary_step(op: Op1) -> Instr {
    match op {
        Op1::Add1 => Instr::IAdd(acc(), Val::Imm(1)),
        Op1::Sub1 => Instr::ISub(acc(), Val::Imm(1)),
    }
}

/// The instructions that combine the left operand, saved in `slot`, with
/// the right operand, held in the accumulator, and leave `left op right`
/// in the accumulator. Subtraction is done in the slot, where the left
/// operand is, and the difference is loaded from there.
pub open spec fn combine(op: Op2, slot: int) -> Seq<Instr> {
    match op {
        Op2::Plus => seq![Instr::IAdd(acc(), slot_ref(slot))],
        Op2::Minus => seq![Instr::ISub(slot_ref(slot), acc()), load(slot)],
        Op2::Times => seq![Instr::IMul(acc(), slot_ref(slot))],
    }
}

/// The names that a binding list binds, in written order.
pub open spec fn names_of(binds: Seq<(Seq<char>, SpecExpr)>) -> Seq<Seq<char>> {
    Seq::new(binds.len(), |k: int| binds[k].0)
}

/// The name at position `k` also stands at an earlier position.
pub open spec fn repeats(names: Seq<Seq<char>>, k: int) -> bool {
    exists|j: int| 0 <= j < k && names[j] == names[k]
}

/// Position `k` is the first whose name also stands at an earlier position.
pub open spec fn is_first_repeat(names: Seq<Seq<char>>, k: int) -> bool {
    &&& 0 <= k < names.len()
    &&& repeats(names, k)
    &&& forall|j: int| 0 <= j < k ==> !repeats(names, j)
}

/// The first position whose name also stands at an earlier position, if
/// there is one.
pub open spec fn first_repeat(names: Seq<Seq<char>>) -> Option<int> {
    if exists|k: int| is_first_repeat(names, k) {
        Some(choose|k: int| is_first_repeat(names, k))
    } else {
        None
    }
}

/// `code` followed by what `rest` holds, or the failure that `rest` is.
pub open spec fn followed_by(code: Seq<Instr>, rest: Result<Seq<Instr>, SpecError>) -> Result<
    Seq<Instr>,
    SpecError,
> {
    match rest {
        Ok(more) => Ok(code + more),
        Err(err) => Err(err),
    }
}

/// The instructions for an expression, with `si` the first free slot and
/// `env` the slots of the names in scope; or the failure, where the
/// expression has none.
///
/// - A number is moved into the accumulator.
/// - A name is loaded from its slot. A name that `env` does not bind is
///   unbound.
/// - A unary operation computes its operand and then steps the
///   accumulator.
/// - A binary operation computes its left operand, saves it in slot `si`,
///   computes its right operand with `si + 1` free and the same `env`,
///   and combines the two.
/// - A `let` whose binding list holds a name twice is a duplicate binding,
///   reported with the name at the first position that repeats an earlier
///   one. Otherwise its bindings are computed in written order, see
///   [`let_code`].
///
/// The first failure in this order is the result, and no instruction
/// comes with it.
pub open spec fn code_of(e: SpecExpr, si: int, env: Scope) -> Result<Seq<Instr>, SpecError>
    decreases e, binding_count(e) + 1,
{
    match e {
        SpecExpr::Number(n) => Ok(seq![Instr::IMov(acc(), Val::Imm(n))]),
        SpecExpr::Id(name) => if env.contains_key(name) {
            Ok(seq![load(env[name] as int)])
        } else {
            Err(SpecError::UnboundIdentifier(name))
        },
        SpecExpr::UnOp(op, arg) => match code_of(*arg, si, env) {
            Ok(code) => Ok(code.push(unary_step(op))),
            Err(err) => Err(err),
        },
        SpecExpr::BinOp(op, left, right) => match code_of(*left, si, env) {
            Ok(first) => match code_of(*right, si + 1, env) {
                Ok(second) => Ok(first.push(store(si)) + second + combine(op, si)),
                Err(err) => Err(err),
            },
            Err(err) => Err(err),
        },
        SpecExpr::Let(binds, body) => match first_repeat(names_of(binds)) {
            Some(k) => Err(SpecError::DuplicateBinding(binds[k].0)),
            None => let_code(e, 0, si, env),
        },
    }
}

/// The instructions for the bindings of the `let` expression `e` from
/// position `k` on, followed by those for its body.
///
/// The binding at `k` is computed with `si` free and with `env`, and saved
/// in slot `si`; what follows is compiled with `si + 1` free and with the
/// binding's name bound to slot `si`. After the last binding comes the body.
pub open spec fn let_code(e: SpecExpr, k: int, si: int, env: Scope) -> Result<
    Seq<Instr>,
    SpecError,
>
    decreases e, binding_count(e) - k,
{
    match e {
        SpecExpr::Let(binds, body) => if 0 <= k < binds.len() {
            match code_of(binds[k].1, si, env) {
                Ok(code) => followed_by(
                    code.push(store(si)),
                    let_code(e, k + 1, si + 1, env.insert(binds[k].0, si as i32)),
                ),
                Err(err) => Err(err),
            }
        } else {
            code_of(*body, si, env)
        },
        _ => Ok(Seq::empty()),
    }
}

/// The number of slots, from the first free one on, that the code for an
/// expression may write.
pub open spec fn stack_need(e: SpecExpr) -> nat
    decreases e, binding_count(e) + 1,
{
    match e {
        SpecExpr::Number(_) => 0,
        SpecExpr::Id(_) => 0,
        SpecExpr::UnOp(_, arg) => stack_need(*arg),
        SpecExpr::BinOp(_, left, right) => {
            let l = stack_need(*left);
            let r = 1 + stack_need(*right);
            if l >= r {
                l
            } else {
                r
            }
        },
        SpecExpr::Let(_, _) => let_need(e, 0),
    }
}

/// The number of slots that the bindings of the `let` expression `e` from
/// position `k` on, and its body, may write.
pub open spec fn let_need(e: SpecExpr, k: int) -> nat
    decreases e, binding_count(e) - k,
{
    match e {
        SpecExpr::Let(binds, body) => if 0 <= k < binds.len() {
            let b = stack_need(binds[k].1);
            let r = 1 + let_need(e, k + 1);
            if b >= r {
                b
            } else {
                r
            }
        } else {
            stack_need(*body)
        },
        _ => 0,
    }
}

/// Every one of `count` slots from `si` on is addressable.
pub open spec fn frame_addressable(si: int, count: nat) -> bool {
    forall|slot: int| si <= slot < si + count ==> addressable(slot)
}

/// Every slot that the environment binds a name to is addressable.
pub open spec fn scope_addressable(env: Scope) -> bool {
    forall|name: Seq<char>| env.contains_key(name) ==> addressable(#[trigger] env[name] as int)
}

/// A position that is the first repeat is the one that `first_repeat`
/// gives.
proof fn lemma_first_repeat_found(names: Seq<Seq<char>>, k: int)
    requires
        is_first_repeat(names, k),
    ensures
        first_repeat(names) == Some(k),
{
    let c = choose|c: int| is_first_repeat(names, c);
    assert(is_first_repeat(names, c));
    if c < k {
        assert(!repeats(names, c));
    }
    if k < c {
        assert(!repeats(names, k));
    }
}

/// The first position of a binding list whose name also stands at an
/// earlier position, if there is one.
pub fn find_repeat(binds: &Vec<(String, Expr)>) -> (r: Option<usize>)
    ensures
        match r {
            Some(k) => first_repeat(names_of(bindings_model(binds@))) == Some(k as int),
            None => first_repeat(names_of(bindings_model(binds@))) is None,
        },
{
    let ghost names = names_of(bindings_model(binds@));
    let mut k: usize = 0;
    while k < binds.len()
        invariant
            k <= binds.len(),
            names == names_of(bindings_model(binds@)),
            forall|i: int| 0 <= i < k ==> !repeats(names, i),
        decreases binds.len() - k,
    {
        let mut j: usize = 0;
        while j < k
            invariant
                j <= k < binds.len(),
                names == names_of(bindings_model(binds@)),
                forall|i: int| 0 <= i < k ==> !repeats(names, i),
                forall|i: int| 0 <= i < j ==> names[i] != names[k as int],
            decreases k - j,
        {
            if binds[j].0 == binds[k].0 {
                proof {
                    assert(names[j as int] == names[k as int]);
                    assert(repeats(names, k as int));
                    lemma_first_repeat_found(names, k as int);
                }
                return Some(k);
            }
            j = j + 1;
        }
        k = k + 1;
    }
    proof {
        assert forall|c: int| !is_first_repeat(names, c) by {}
    }
    None
}

/// The result of the code generator as a model.
pub open spec fn outcome(r: Result<Vec<Instr>, CompileError>) -> Result<Seq<Instr>, SpecError> {
    match r {
        Ok(code) => Ok(code@),
        Err(err) => Err(err@),
    }
}

fn slot_operand(slot: i32) -> (v: Val)
    requires
        addressable(slot as int),
    ensures
        v == slot_ref(slot as int),
{
    Val::RegOffset(Reg::RSP, -8 * slot)
}

fn push_combine(code: &mut Vec<Instr>, op: &Op2, slot: i32)
    requires
        addressable(slot as int),
    ensures
        final(code)@ == old(code)@ + combine(*op, slot as int),
{
    match op {
        Op2::Plus => {
            code.push(Instr::IAdd(Val::Reg(Reg::RAX), slot_operand(slot)));
        },
        Op2::Minus => {
            code.push(Instr::ISub(slot_operand(slot), Val::Reg(Reg::RAX)));
            code.push(Instr::IMov(Val::Reg(Reg::RAX), slot_operand(slot)));
        },
        Op2::Times => {
            code.push(Instr::IMul(Val::Reg(Reg::RAX), slot_operand(slot)));
        },
    }
    assert(final(code)@ =~= old(code)@ + combine(*op, slot as int));
}

/// Compiles an expression to instructions that leave its value in the
/// accumulator. `si` is the first free stack slot and `env` gives the slot
/// of each name in scope.
///
/// Every slot that the code may write, and every slot that `env` binds,
/// must be addressable.
pub fn compile_to_instrs(e: &Expr, si: i32, env: &im::HashMap<String, i32>) -> (r: Result<
    Vec<Instr>,
    CompileError,
>)
    requires
        frame_addressable(si as int, stack_need(e@)),
        scope_addressable(contents(*env)),
    ensures
        outcome(r) == code_of(e@, si as int, contents(*env)),
    decreases e, binding_count(e@) + 1,
{
    match e {
        Expr::Number(n) => {
            let mut code: Vec<Instr> = Vec::new();
            code.push(Instr::IMov(Val::Reg(Reg::RAX), Val::Imm(*n)));
            assert(code@ =~= seq![Instr::IMov(acc(), Val::Imm(*n))]);
            Ok(code)
        },
        Expr::Id(name) => {
            match lookup(env, name) {
                Some(slot) => {
                    let mut code: Vec<Instr> = Vec::new();
                    code.push(Instr::IMov(Val::Reg(Reg::RAX), slot_operand(slot)));
                    assert(code@ =~= seq![load(slot as int)]);
                    Ok(code)
                },
                None => Err(CompileError::UnboundIdentifier(name.clone())),
            }
        },
        Expr::UnOp(op, arg) => {
            match compile_to_instrs(arg, si, env) {
                Ok(mut code) => {
                    match op {
                        Op1::Add1 => code.push(Instr::IAdd(Val::Reg(Reg::RAX), Val::Imm(1))),
                        Op1::Sub1 => code.push(Instr::ISub(Val::Reg(Reg::RAX), Val::Imm(1))),
                    }
                    Ok(code)
                },
                Err(err) => Err(err),
            }
        },
        Expr::BinOp(op, left, right) => {
            match compile_to_instrs(left, si, env) {
                Ok(mut code) => {
                    assert(addressable(si as int));
                    match compile_to_instrs(right, si + 1, env) {
                        Ok(mut second) => {
                            code.push(Instr::IMov(slot_operand(si), Val::Reg(Reg::RAX)));
                            code.append(&mut second);
                            push_combine(&mut code, op, si);
                            Ok(code)
                        },
                        Err(err) => Err(err),
                    }
                },
                Err(err) => Err(err),
            }
        },
        Expr::Let(binds, body) => {
            proof {
                lemma_let_model(*binds, *body);
            }
            match find_repeat(binds) {
                Some(k) => Err(CompileError::DuplicateBinding(binds[k].0.clone())),
                None => compile_let(e, 0, si, env),
            }
        },
    }
}

/// Compiles the bindings of the `let` expression `e` from position `k` on,
/// and then its body.
fn compile_let(e: &Expr, k: usize, si: i32, env: &im::HashMap<String, i32>) -> (r: Result<
    Vec<Instr>,
    CompileError,
>)
    requires
        e is Let,
        k <= binding_count(e@),
        frame_addressable(si as int, let_need(e@, k as int)),
        scope_addressable(contents(*env)),
    ensures
        outcome(r) == let_code(e@, k as int, si as int, contents(*env)),
    decreases e, binding_count(e@) - k,
{
    match e {
        Expr::Let(binds, body) => {
            proof {
                lemma_let_model(*binds, *body);
            }
            if k < binds.len() {
                assert(addressable(si as int));
                match compile_to_instrs(&binds[k].1, si, env) {
                    Ok(mut code) => {
                        let inner = extend(env, binds[k].0.clone(), si);
                        match compile_let(e, k + 1, si + 1, &inner) {
                            Ok(mut rest) => {
                                code.push(Instr::IMov(slot_operand(si), Val::Reg(Reg::RAX)));
                                code.append(&mut rest);
                                Ok(code)
                            },
                            Err(err) => Err(err),
                        }
                    },
                    Err(err) => Err(err),
                }
            } else {
                compile_to_instrs(body, si, env)
            }
        },
        _ => Ok(Vec::new()),
    }
}

/// The lowest and the highest addressable slot.
pub const MIN_SLOT: i32 = -268_435_455;

pub const MAX_SLOT: i32 = 268_435_456;

/// One more than the number of addressable slots.
const NEED_CAP: u32 = 0x2000_0001;

/// The smaller of `n` and `cap`.
pub open spec fn capped(n: nat, cap: nat) -> nat {
    if n <= cap {
        n
    } else {
        cap
    }
}

/// The addressable slots are those from `MIN_SLOT` to `MAX_SLOT`.
pub proof fn lemma_addressable_range(slot: int)
    ensures
        addressable(slot) <==> MIN_SLOT <= slot <= MAX_SLOT,
{
}

fn need_capped(e: &Expr, cap: u32) -> (n: u32)
    ensures
        n == capped(stack_need(e@), cap as nat),
    decreases e, binding_count(e@) + 1,
{
    match e {
        Expr::Number(_) => 0,
        Expr::Id(_) => 0,
        Expr::UnOp(_, arg) => need_capped(arg, cap),
        Expr::BinOp(_, left, right) => {
            let l = need_capped(left, cap);
            let r = need_capped(right, cap);
            let above = if r < cap {
                r + 1
            } else {
                cap
            };
            if l >= above {
                l
            } else {
                above
            }
        },
        Expr::Let(binds, body) => {
            proof {
                lemma_let_model(*binds, *body);
            }
            let_need_capped(e, 0, cap)
        },
    }
}

fn let_need_capped(e: &Expr, k: usize, cap: u32) -> (n: u32)
    requires
        e is Let,
        k <= binding_count(e@),
    ensures
        n == capped(let_need(e@, k as int), cap as nat),
    decreases e, binding_count(e@) - k,
{
    match e {
        Expr::Let(binds, body) => {
            proof {
                lemma_let_model(*binds, *body);
            }
            if k < binds.len() {
                let b = need_capped(&binds[k].1, cap);
                let r = let_need_capped(e, k + 1, cap);
                let above = if r < cap {
                    r + 1
                } else {
                    cap
                };
                if b >= above {
                    b
                } else {
                    above
                }
            } else {
                need_capped(body, cap)
            }
        },
        _ => 0,
    }
}

/// Whether every slot that the code for `e`, compiled with `si` free, may
/// write is addressable.
pub fn fits_frame(e: &Expr, si: i32) -> (ok: bool)
    ensures
        ok == frame_addressable(si as int, stack_need(e@)),
{
    let need = need_capped(e, NEED_CAP);
    if need == 0 {
        true
    } else if need >= NEED_CAP {
        proof {
            let far = si + 0x2000_0000;
            assert(!addressable(si as int) || !addressable(far));
        }
        false
    } else {
        let last: i64 = si as i64 + (need as i64 - 1);
        let ok = MIN_SLOT <= si && si <= MAX_SLOT && MIN_SLOT as i64 <= last && last
            <= MAX_SLOT as i64;
        proof {
            if ok {
                assert forall|slot: int| si <= slot < si + need implies addressable(slot) by {
                    lemma_addressable_range(slot);
                }
            } else {
                lemma_addressable_range(si as int);
                lemma_addressable_range(last as int);
            }
        }
        ok
    }
}

/// Whether every slot that the environment binds a name to is addressable.
pub fn scope_fits(env: &im::HashMap<String, i32>) -> (ok: bool)
    ensures
        ok == scope_addressable(contents(*env)),
{
    let slots = bound_slots(env);
    let mut k: usize = 0;
    while k < slots.len()
        invariant
            k <= slots.len(),
            forall|j: int|
                0 <= j < slots.len() ==> binds_slot(contents(*env), #[trigger] slots[j]),
            forall|j: int| 0 <= j < k ==> addressable(#[trigger] slots[j] as int),
        decreases slots.len() - k,
    {
        let slot = slots[k];
        proof {
            lemma_addressable_range(slot as int);
        }
        if slot < MIN_SLOT || slot > MAX_SLOT {
            proof {
                assert(binds_slot(contents(*env), slots[k as int]));
                let name = choose|name: Seq<char>| #[trigger]
                    contents(*env).contains_key(name) && contents(*env)[name] == slot;
                assert(!addressable(contents(*env)[name] as int));
            }
            return false;
        }
        k = k + 1;
    }
    proof {
        assert forall|name: Seq<char>| contents(*env).contains_key(name) implies addressable(
            #[trigger] contents(*env)[name] as int,
        ) by {
            let slot = contents(*env)[name];
            assert(slots@.contains(slot));
            let j = choose|j: int| 0 <= j < slots.len() && slots[j] == slot;
            assert(addressable(slots[j] as int));
        }
    }
    true
}

/// Compiles as `compile_to_instrs` does where every slot that the code may
/// write and every slot that `env` binds is addressable, and gives `None`
/// where one is not.
pub fn compile_checked(e: &Expr, si: i32, env: &im::HashMap<String, i32>) -> (r: Option<
    Result<Vec<Instr>, CompileError>,
>)
    ensures
        r is Some <==> frame_addressable(si as int, stack_need(e@)) && scope_addressable(
            contents(*env),
        ),
        r matches Some(found) ==> outcome(found) == code_of(e@, si as int, contents(*env)),
{
    if fits_frame(e, si) && scope_fits(env) {
        Some(compile_to_instrs(e, si, env))
    } else {
        None
    }
}

/// The first stack slot that compiled code may use: the two below it are
/// kept for linkage.
pub const FIRST_SLOT: i32 = 2;

/// The result of a compilation to text as a model.
pub open spec fn text_outcome(r: Result<String, CompileError>) -> Result<Seq<char>, SpecError> {
    match r {
        Ok(text) => Ok(text@),
        Err(err) => Err(err@),
    }
}

/// The assembly text for a whole expression: the listing of its code,
/// compiled with nothing in scope and the first slot free.
pub open spec fn text_of(e: SpecExpr) -> Result<Seq<char>, SpecError> {
    match code_of(e, FIRST_SLOT as int, Map::empty()) {
        Ok(code) => Ok(listing(code)),
        Err(err) => Err(err),
    }
}

/// Compiles a whole expression to assembly text, one instruction per line.
///
/// Every slot that the code may write must be addressable; `fits_frame`
/// tests this.
pub fn compile(e: &Expr) -> (r: Result<String, CompileError>)
    requires
        frame_addressable(FIRST_SLOT as int, stack_need(e@)),
    ensures
        text_outcome(r) == text_of(e@),
{
    let env = empty_env();
    match compile_to_instrs(e, FIRST_SLOT, &env) {
        Ok(code) => Ok(render(&code)),
        Err(err) => Err(err),
    }
}

/// Compiling is a function of what its inputs hold: for expressions with
/// the same model, the same first free slot and environments with the same
/// contents, any two results of `compile_to_instrs` are the same
/// instructions or the same failure.
pub proof fn law_instrs_determined(
    e1: Expr,
    e2: Expr,
    si: i32,
    env1: im::HashMap<String, i32>,
    env2: im::HashMap<String, i32>,
    r1: Result<Vec<Instr>, CompileError>,
    r2: Result<Vec<Instr>, CompileError>,
)
    requires
        e1@ == e2@,
        contents(env1) == contents(env2),
        outcome(r1) == code_of(e1@, si as int, contents(env1)),
        outcome(r2) == code_of(e2@, si as int, contents(env2)),
    ensures
        outcome(r1) == outcome(r2),
        r1 matches Ok(c1) ==> r2 matches Ok(c2) && c1@ == c2@,
{
}

/// Any two results of `compile` for expressions with the same model are
/// the same text, character for character, or the same failure.
pub proof fn law_text_determined(
    e1: Expr,
    e2: Expr,
    r1: Result<String, CompileError>,
    r2: Result<String, CompileError>,
)
    requires
        e1@ == e2@,
        text_outcome(r1) == text_of(e1@),
        text_outcome(r2) == text_of(e2@),
    ensures
        text_outcome(r1) == text_outcome(r2),
        r1 matches Ok(t1) ==> r2 matches Ok(t2) && t1@ == t2@,
{
}

} // verus!
