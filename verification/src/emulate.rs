//! An executable machine that runs instruction sequences as the model of
//! the target machine says.

use std::collections::HashMap;
use vstd::prelude::*;
use crate::instr::{Instr, Reg, Val};
use crate::machine::{
    fetch, operands_ok, put, run, run_to_halt, slot_of, step, wrap, Machine,
};

verus! {

/// A machine with an accumulator and a stack of slots.
pub struct Emulator {
    pub acc: i64,
    pub slots: HashMap<i64, i64>,
}

impl View for Emulator {
    type V = Machine;

    open spec fn view(&self) -> Machine {
        Machine {
            acc: self.acc as int,
            slots: Map::new(
                |k: int| i64::MIN <= k <= i64::MAX && self.slots@.contains_key(k as i64),
                |k: int| self.slots@[k as i64] as int,
            ),
        }
    }
}

/// The slot that an operand names, if it is a word on the stack.
fn slot_index(v: &Val) -> (r: Option<i64>)
    ensures
        match r {
            Some(k) => slot_of(*v) == Some(k as int),
            None => slot_of(*v) is None,
        },
{
    match v {
        Val::RegOffset(Reg::RSP, disp) => {
            let d: i64 = *disp as i64;
            if d % 8 == 0 {
                Some(-d / 8)
            } else {
                None
            }
        },
        _ => None,
    }
}

/// Cutting to a word is what the wrapping operations of `i64` do.
proof fn lemma_wrap_matches(a: i64, b: i64)
    ensures
        a.wrapping_add(b) == wrap(a + b),
        a.wrapping_sub(b) == wrap(a - b),
        a.wrapping_mul(b) == wrap(a * b),
        i64::MIN <= wrap(a * b) <= i64::MAX,
{
}

impl Emulator {
    /// A machine with zero in the accumulator and nothing on the stack.
    pub fn new() -> (emu: Emulator)
        ensures
            emu@ == (Machine { acc: 0, slots: Map::empty() }),
    {
        let emu = Emulator { acc: 0, slots: HashMap::new() };
        assert(emu@.slots =~= Map::empty());
        emu
    }

    /// The value of a source operand, if it has one.
    fn fetch(&self, v: &Val) -> (r: Option<i64>)
        ensures
            match r {
                Some(x) => fetch(self@, *v) == Some(x as int),
                None => fetch(self@, *v) is None,
            },
    {
        broadcast use vstd::std_specs::hash::group_hash_axioms;

        match v {
            Val::Imm(n) => Some(*n as i64),
            Val::Reg(Reg::RAX) => Some(self.acc),
            Val::Reg(Reg::RSP) => None,
            Val::RegOffset(_, _) => match slot_index(v) {
                Some(k) => match self.slots.get(&k) {
                    Some(x) => Some(*x),
                    None => None,
                },
                None => None,
            },
        }
    }

    /// Writes `x` to a destination operand, if it can be written.
    fn put(&mut self, v: &Val, x: i64) -> (done: bool)
        ensures
            match put(old(self)@, *v, x as int) {
                Some(after) => done && final(self)@ == after,
                None => !done && *final(self) == *old(self),
            },
    {
        broadcast use vstd::std_specs::hash::group_hash_axioms;

        match v {
            Val::Reg(Reg::RAX) => {
                self.acc = x;
                assert(self@.slots =~= old(self)@.slots);
                true
            },
            Val::RegOffset(_, _) => match slot_index(v) {
                Some(k) => {
                    self.slots.insert(k, x);
                    assert(self@.slots =~= old(self)@.slots.insert(k as int, x as int));
                    true
                },
                None => false,
            },
            _ => false,
        }
    }

    /// Runs one instruction. Where the model gives the instruction no
    /// meaning, the machine stays as it is and the answer is `false`.
    pub fn step(&mut self, i: &Instr) -> (done: bool)
        ensures
            match step(old(self)@, *i) {
                Some(after) => done && final(self)@ == after,
                None => !done && *final(self) == *old(self),
            },
    {
        match i {
            Instr::IMov(dst, src) => {
                if !pair_ok(dst, src) {
                    return false;
                }
                match self.fetch(src) {
                    Some(b) => self.put(dst, b),
                    None => false,
                }
            },
            Instr::IAdd(dst, src) => {
                if !pair_ok(dst, src) {
                    return false;
                }
                match (self.fetch(dst), self.fetch(src)) {
                    (Some(a), Some(b)) => {
                        proof {
                            lemma_wrap_matches(a, b);
                        }
                        self.put(dst, a.wrapping_add(b))
                    },
                    _ => false,
                }
            },
            Instr::ISub(dst, src) => {
                if !pair_ok(dst, src) {
                    return false;
                }
                match (self.fetch(dst), self.fetch(src)) {
                    (Some(a), Some(b)) => {
                        proof {
                            lemma_wrap_matches(a, b);
                        }
                        self.put(dst, a.wrapping_sub(b))
                    },
                    _ => false,
                }
            },
            Instr::IMul(dst, src) => {
                match dst {
                    Val::Reg(Reg::RAX) => {},
                    _ => {
                        return false;
                    },
                }
                match (self.fetch(dst), self.fetch(src)) {
                    (Some(a), Some(b)) => {
                        proof {
                            lemma_wrap_matches(a, b);
                        }
                        self.put(dst, a.wrapping_mul(b))
                    },
                    _ => false,
                }
            },
        }
    }

    /// Runs a sequence of instructions in order. It stops before the
    /// first instruction that the model gives no meaning, and the answer
    /// is then `false`.
    pub fn run(&mut self, code: &Vec<Instr>) -> (done: bool)
        ensures
            done == (run(old(self)@, code@) is Some),
            final(self)@ == run_to_halt(old(self)@, code@),
            done ==> run(old(self)@, code@) == Some(final(self)@),
    {
        let mut k: usize = 0;
        assert(code@.skip(0) =~= code@);
        while k < code.len()
            invariant
                k <= code.len(),
                run(old(self)@, code@) == run(self@, code@.skip(k as int)),
                run_to_halt(old(self)@, code@) == run_to_halt(self@, code@.skip(k as int)),
            decreases code.len() - k,
        {
            let ghost rest = code@.skip(k as int);
            assert(rest[0] == code@[k as int]);
            assert(rest.drop_first() =~= code@.skip(k + 1));
            if !self.step(&code[k]) {
                return false;
            }
            k = k + 1;
        }
        true
    }
}

/// Whether the model gives the operand pair a meaning.
fn pair_ok(dst: &Val, src: &Val) -> (ok: bool)
    ensures
        ok == operands_ok(*dst, *src),
{
    match dst {
        Val::Reg(Reg::RAX) => true,
        Val::RegOffset(_, _) => match src {
            Val::Reg(Reg::RAX) => true,
            _ => false,
        },
        _ => false,
    }
}

/// Runs the code on a fresh machine and gives what it leaves in the
/// accumulator; `None` where the model gives some instruction on the way
/// no meaning.
pub fn execute(code: &Vec<Instr>) -> (r: Option<i64>)
    ensures
        match run(Machine { acc: 0, slots: Map::empty() }, code@) {
            Some(after) => r matches Some(x) && x == after.acc,
            None => r is None,
        },
{
    let mut emu = Emulator::new();
    if emu.run(code) {
        Some(emu.acc)
    } else {
        None
    }
}

} // verus!
