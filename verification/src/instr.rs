//! The instruction model of the target machine and its rendering as
//! assembly text.

use vstd::prelude::*;
use vstd::string::StringExecFns;

verus! {

/// The registers the generated code uses.
#[derive(Debug, Clone, Copy, PartialEq, Eq, Structural)]
pub enum Reg {
    RAX,
    RSP,
}

/// An operand of an instruction.
#[derive(Debug, Clone, Copy, PartialEq, Eq, Structural)]
pub enum Val {
    Reg(Reg),
    Imm(i32),
    /// The word in memory at the register's value plus a byte displacement.
    RegOffset(Reg, i32),
}

/// One instruction; the first operand is the destination.
#[derive(Debug, Clone, Copy, PartialEq, Eq, Structural)]
pub enum Instr {
    IMov(Val, Val),
    IAdd(Val, Val),
    ISub(Val, Val),
    IMul(Val, Val),
}

/// The character of a single decimal digit.
pub open spec fn digit_char(d: int) -> char
    recommends
        0 <= d < 10,
{
    if d == 0 {
        '0'
    } else if d == 1 {
        '1'
    } else if d == 2 {
        '2'
    } else if d == 3 {
        '3'
    } else if d == 4 {
        '4'
    } else if d == 5 {
        '5'
    } else if d == 6 {
        '6'
    } else if d == 7 {
        '7'
    } else if d == 8 {
        '8'
    } else {
        '9'
    }
}

/// The decimal digits of a natural number, most significant first, without
/// leading zeros.
pub open spec fn digits(n: nat) -> Seq<char>
    decreases n,
{
    if n < 10 {
        seq![digit_char(n as int)]
    } else {
        digits(n / 10).push(digit_char((n % 10) as int))
    }
}

/// The decimal text of an integer: a minus sign for a negative one, then the
/// digits of its magnitude.
pub open spec fn decimal(n: int) -> Seq<char> {
    if n < 0 {
        seq!['-'] + digits((-n) as nat)
    } else {
        digits(n as nat)
    }
}

fn digit_str(d: u32) -> (s: &'static str)
    requires
        d < 10,
    ensures
        s@ == seq![digit_char(d as int)],
{
    proof {
        reveal_strlit("0");
        reveal_strlit("1");
        reveal_strlit("2");
        reveal_strlit("3");
        reveal_strlit("4");
        reveal_strlit("5");
        reveal_strlit("6");
        reveal_strlit("7");
        reveal_strlit("8");
        reveal_strlit("9");
    }
    let s = if d == 0 {
        "0"
    } else if d == 1 {
        "1"
    } else if d == 2 {
        "2"
    } else if d == 3 {
        "3"
    } else if d == 4 {
        "4"
    } else if d == 5 {
        "5"
    } else if d == 6 {
        "6"
    } else if d == 7 {
        "7"
    } else if d == 8 {
        "8"
    } else {
        "9"
    };
    assert(s@ =~= seq![digit_char(d as int)]);
    s
}

fn push_digits(out: &mut String, n: u32)
    ensures
        final(out)@ == old(out)@ + digits(n as nat),
    decreases n,
{
    if n >= 10 {
        push_digits(out, n / 10);
    }
    out.append(digit_str(n % 10));
    assert(final(out)@ =~= old(out)@ + digits(n as nat));
}

/// Appends the decimal text of `n` to `out`.
pub fn push_decimal(out: &mut String, n: i32)
    ensures
        final(out)@ == old(out)@ + decimal(n as int),
{
    if n < 0 {
        out.append("-");
        proof {
            reveal_strlit("-");
        }
        let wide: i64 = n as i64;
        push_digits(out, (-wide) as u32);
        assert(final(out)@ =~= old(out)@ + decimal(n as int));
    } else {
        push_digits(out, n as u32);
    }
}

/// The name of a register in assembly text.
pub open spec fn reg_text(r: Reg) -> Seq<char> {
    match r {
        Reg::RAX => "rax"@,
        Reg::RSP => "rsp"@,
    }
}

/// The assembly text of an operand: a register's name, an immediate in
/// decimal, or `[reg + disp]` with the displacement in decimal.
pub open spec fn val_text(v: Val) -> Seq<char> {
    match v {
        Val::Reg(r) => reg_text(r),
        Val::Imm(n) => decimal(n as int),
        Val::RegOffset(r, disp) => "["@ + reg_text(r) + " + "@ + decimal(disp as int) + "]"@,
    }
}

/// The mnemonic of an instruction.
pub open spec fn mnemonic(i: Instr) -> Seq<char> {
    match i {
        Instr::IMov(_, _) => "mov"@,
        Instr::IAdd(_, _) => "add"@,
        Instr::ISub(_, _) => "sub"@,
        Instr::IMul(_, _) => "imul"@,
    }
}

/// The destination operand of an instruction.
pub open spec fn dst_of(i: Instr) -> Val {
    match i {
        Instr::IMov(d, _) => d,
        Instr::IAdd(d, _) => d,
        Instr::ISub(d, _) => d,
        Instr::IMul(d, _) => d,
    }
}

/// The source operand of an instruction.
pub open spec fn src_of(i: Instr) -> Val {
    match i {
        Instr::IMov(_, s) => s,
        Instr::IAdd(_, s) => s,
        Instr::ISub(_, s) => s,
        Instr::IMul(_, s) => s,
    }
}

/// The assembly text of an instruction: mnemonic, destination, source.
pub open spec fn instr_text(i: Instr) -> Seq<char> {
    mnemonic(i) + " "@ + val_text(dst_of(i)) + ", "@ + val_text(src_of(i))
}

/// The text of an instruction sequence: one instruction per line, every
/// line after the first indented by two spaces.
pub open spec fn listing(code: Seq<Instr>) -> Seq<char>
    decreases code.len(),
{
    if code.len() == 0 {
        Seq::empty()
    } else if code.len() == 1 {
        instr_text(code[0])
    } else {
        listing(code.drop_last()) + "\n  "@ + instr_text(code.last())
    }
}

fn reg_name(r: &Reg) -> (s: &'static str)
    ensures
        s@ == reg_text(*r),
{
    match r {
        Reg::RAX => "rax",
        Reg::RSP => "rsp",
    }
}

fn push_val(out: &mut String, v: &Val)
    ensures
        final(out)@ == old(out)@ + val_text(*v),
{
    match v {
        Val::Reg(r) => {
            out.append(reg_name(r));
        },
        Val::Imm(n) => {
            push_decimal(out, *n);
        },
        Val::RegOffset(r, disp) => {
            out.append("[");
            out.append(reg_name(r));
            out.append(" + ");
            push_decimal(out, *disp);
            out.append("]");
            assert(final(out)@ =~= old(out)@ + val_text(*v));
        },
    }
}

/// Renders an operand as assembly text.
pub fn val_to_str(v: &Val) -> (s: String)
    ensures
        s@ == val_text(*v),
{
    let mut s = String::new();
    push_val(&mut s, v);
    assert(s@ =~= val_text(*v));
    s
}

fn mnemonic_name(i: &Instr) -> (s: &'static str)
    ensures
        s@ == mnemonic(*i),
{
    match i {
        Instr::IMov(_, _) => "mov",
        Instr::IAdd(_, _) => "add",
        Instr::ISub(_, _) => "sub",
        Instr::IMul(_, _) => "imul",
    }
}

fn push_instr(out: &mut String, i: &Instr)
    ensures
        final(out)@ == old(out)@ + instr_text(*i),
{
    let (dst, src) = match i {
        Instr::IMov(d, s) => (d, s),
        Instr::IAdd(d, s) => (d, s),
        Instr::ISub(d, s) => (d, s),
        Instr::IMul(d, s) => (d, s),
    };
    out.append(mnemonic_name(i));
    out.append(" ");
    push_val(out, dst);
    out.append(", ");
    push_val(out, src);
    assert(final(out)@ =~= old(out)@ + instr_text(*i));
}

/// Renders an instruction as assembly text.
pub fn instr_to_str(i: &Instr) -> (s: String)
    ensures
        s@ == instr_text(*i),
{
    let mut s = String::new();
    push_instr(&mut s, i);
    assert(s@ =~= instr_text(*i));
    s
}

/// Renders an instruction sequence, one instruction per line.
pub fn render(code: &Vec<Instr>) -> (s: String)
    ensures
        s@ == listing(code@),
{
    let mut s = String::new();
    let mut k: usize = 0;
    while k < code.len()
        invariant
            k <= code.len(),
            s@ == listing(code@.take(k as int)),
        decreases code.len() - k,
    {
        if k > 0 {
            s.append("\n  ");
        }
        push_instr(&mut s, &code[k]);
        proof {
            let before = code@.take(k as int);
            let after = code@.take(k + 1);
            assert(after.drop_last() =~= before);
            assert(after.last() == code@[k as int]);
            assert(s@ =~= listing(after));
        }
        k = k + 1;
    }
    assert(code@.take(k as int) =~= code@);
    s
}

} // verus!
