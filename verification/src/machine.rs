//! A model of the target machine, as far as compiled code uses it: an
//! accumulator and a stack of slots, each a 64-bit word. It gives the
//! instructions their meaning.

use vstd::prelude::*;
use crate::instr::{Instr, Reg, Val};

verus! {

/// The state of the machine. Slot `k` is the word `8 * k` bytes below the
/// stack pointer; a slot that nothing was stored in is absent.
pub struct Machine {
    pub acc: int,
    pub slots: Map<int, int>,
}

/// The word that an integer is cut to: its value modulo 2^64, taken as a
/// signed number.
pub open spec fn wrap(x: int) -> int {
    let r = x % 0x1_0000_0000_0000_0000;
    if r >= 0x8000_0000_0000_0000 {
        r - 0x1_0000_0000_0000_0000
    } else {
        r
    }
}

/// The slot at a byte displacement from the stack pointer. Only
/// displacements of whole words name a slot.
pub open spec fn slot_at(disp: int) -> Option<int> {
    if disp % 8 == 0 {
        Some(-disp / 8)
    } else {
        None
    }
}

/// The slot that an operand names, if it is a word on the stack.
pub open spec fn slot_of(v: Val) -> Option<int> {
    match v {
        Val::RegOffset(Reg::RSP, disp) => slot_at(disp as int),
        _ => None,
    }
}

/// The value of a source operand: an immediate, the accumulator, or a slot
/// that holds something. Other operands have no value in this model.
pub open spec fn fetch(m: Machine, v: Val) -> Option<int> {
    match v {
        Val::Imm(n) => Some(n as int),
        Val::Reg(Reg::RAX) => Some(m.acc),
        Val::Reg(Reg::RSP) => None,
        Val::RegOffset(_, _) => match slot_of(v) {
            Some(k) => if m.slots.contains_key(k) {
                Some(m.slots[k])
            } else {
                None
            },
            None => None,
        },
    }
}

/// The state after `x` is written to a destination operand: the
/// accumulator or a slot. Other operands cannot be written in this model.
pub open spec fn put(m: Machine, v: Val, x: int) -> Option<Machine> {
    match v {
        Val::Reg(Reg::RAX) => Some(Machine { acc: x, slots: m.slots }),
        Val::RegOffset(_, _) => match slot_of(v) {
            Some(k) => Some(Machine { acc: m.acc, slots: m.slots.insert(k, x) }),
            None => None,
        },
        _ => None,
    }
}

/// The operand pairs that the model gives a meaning to: the accumulator as
/// destination with any source, or a slot as destination with the
/// accumulator as source.
pub open spec fn operands_ok(dst: Val, src: Val) -> bool {
    match dst {
        Val::Reg(Reg::RAX) => true,
        Val::RegOffset(_, _) => src == Val::Reg(Reg::RAX),
        _ => false,
    }
}

/// The state after one instruction, or `None` where the model gives the
/// instruction no meaning. Arithmetic wraps to the word size; a product
/// goes to the accumulator only.
pub open spec fn step(m: Machine, i: Instr) -> Option<Machine> {
    match i {
        Instr::IMov(dst, src) => match fetch(m, src) {
            Some(b) if operands_ok(dst, src) => put(m, dst, b),
            _ => None,
        },
        Instr::IAdd(dst, src) => match (fetch(m, dst), fetch(m, src)) {
            (Some(a), Some(b)) if operands_ok(dst, src) => put(m, dst, wrap(a + b)),
            _ => None,
        },
        Instr::ISub(dst, src) => match (fetch(m, dst), fetch(m, src)) {
            (Some(a), Some(b)) if operands_ok(dst, src) => put(m, dst, wrap(a - b)),
            _ => None,
        },
        Instr::IMul(dst, src) => match (fetch(m, dst), fetch(m, src)) {
            (Some(a), Some(b)) if dst == Val::Reg(Reg::RAX) => put(m, dst, wrap(a * b)),
            _ => None,
        },
    }
}

/// The state after a sequence of instructions, run in order.
pub open spec fn run(m: Machine, code: Seq<Instr>) -> Option<Machine>
    decreases code.len(),
{
    if code.len() == 0 {
        Some(m)
    } else {
        match step(m, code[0]) {
            Some(next) => run(next, code.drop_first()),
            None => None,
        }
    }
}

/// The state in which a run ends: the one after the last instruction, or
/// the one before the first instruction that the model gives no meaning.
pub open spec fn run_to_halt(m: Machine, code: Seq<Instr>) -> Machine
    decreases code.len(),
{
    if code.len() == 0 {
        m
    } else {
        match step(m, code[0]) {
            Some(next) => run_to_halt(next, code.drop_first()),
            None => m,
        }
    }
}

} // verus!
