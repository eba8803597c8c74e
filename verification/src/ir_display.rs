//! Text of IR values and instructions, as printed when dumping a lifted function.
use vstd::prelude::*;
use vstd::string::StringExecFns;

use crate::irgraph::{Instruction, Operation, Val, ir_view};
use crate::jit::IrView;
use crate::registers::Register;

verus! {

/// A digit in base 16
pub open spec fn hex_char(d: nat, upper: bool) -> char {
    if d < 10 {
        (48 + d) as char
    } else if upper {
        (55 + d) as char
    } else {
        (87 + d) as char
    }
}

/// The hexadecimal digits of `n`, most significant first, without leading zeros
pub open spec fn hex_digits(n: nat, upper: bool) -> Seq<char>
    decreases n,
{
    if n < 16 {
        seq![hex_char(n, upper)]
    } else {
        hex_digits(n / 16, upper).push(hex_char(n % 16, upper))
    }
}

/// The decimal digits of `n`, most significant first, without leading zeros
pub open spec fn dec_digits(n: nat) -> Seq<char>
    decreases n,
{
    if n < 10 {
        seq![(48 + n) as char]
    } else {
        dec_digits(n / 10).push((48 + n % 10) as char)
    }
}

/// `s` with zeros in front up to `w` characters
pub open spec fn zero_padded(s: Seq<char>, w: nat) -> Seq<char> {
    if s.len() < w {
        Seq::new((w - s.len()) as nat, |i: int| '0') + s
    } else {
        s
    }
}

/// A number in decimal, with a minus sign when it is negative
pub open spec fn signed_dec(v: int) -> Seq<char> {
    if v < 0 {
        seq!['-'] + dec_digits((-v) as nat)
    } else {
        dec_digits(v as nat)
    }
}

/// `0x` and hexadecimal digits
pub open spec fn prefixed_hex(n: nat, upper: bool) -> Seq<char> {
    seq!['0', 'x'] + hex_digits(n, upper)
}

/// std's `format!("{:#08X}", v)`: `0x` and the upper-case hexadecimal digits, padded with zeros
/// to eight characters in all.
#[verifier::external_body]
fn pc_text(v: usize) -> (r: String)
    ensures
        r@ == seq!['0', 'x'] + zero_padded(hex_digits(v as nat, true), 6),
{
    format!("{:#08X}", v)
}

/// std's `format!("{:#0x?}", v)`: `0x` and the lower-case hexadecimal digits.
#[verifier::external_body]
fn hex_lower(v: usize) -> (r: String)
    ensures
        r@ == prefixed_hex(v as nat, false),
{
    format!("{:#0x?}", v)
}

/// std's `format!("{:#0X?}", v)`: `0x` and the upper-case hexadecimal digits.
#[verifier::external_body]
fn hex_upper(v: usize) -> (r: String)
    ensures
        r@ == prefixed_hex(v as nat, true),
{
    format!("{:#0X?}", v)
}

/// std's `format!("{:X}", v)`: the upper-case hexadecimal digits.
#[verifier::external_body]
fn bare_hex(v: u32) -> (r: String)
    ensures
        r@ == hex_digits(v as nat, true),
{
    format!("{:X}", v)
}

/// std's `format!("{}", v)` of an `i32`: the decimal digits, after a minus sign when negative.
#[verifier::external_body]
fn dec_i32(v: i32) -> (r: String)
    ensures
        r@ == signed_dec(v as int),
{
    format!("{}", v)
}

/// std's `format!("{}", v)` of an `i64`: the decimal digits, after a minus sign when negative.
#[verifier::external_body]
fn dec_i64(v: i64) -> (r: String)
    ensures
        r@ == signed_dec(v as int),
{
    format!("{}", v)
}

/// Name of a register, as its variant is spelled
pub open spec fn reg_text(r: Register) -> Seq<char> {
    match r {
        Register::Zero => "Zero"@,
        Register::Ra => "Ra"@,
        Register::Sp => "Sp"@,
        Register::Gp => "Gp"@,
        Register::Tp => "Tp"@,
        Register::T0 => "T0"@,
        Register::T1 => "T1"@,
        Register::T2 => "T2"@,
        Register::S0 => "S0"@,
        Register::S1 => "S1"@,
        Register::A0 => "A0"@,
        Register::A1 => "A1"@,
        Register::A2 => "A2"@,
        Register::A3 => "A3"@,
        Register::A4 => "A4"@,
        Register::A5 => "A5"@,
        Register::A6 => "A6"@,
        Register::A7 => "A7"@,
        Register::S2 => "S2"@,
        Register::S3 => "S3"@,
        Register::S4 => "S4"@,
        Register::S5 => "S5"@,
        Register::S6 => "S6"@,
        Register::S7 => "S7"@,
        Register::S8 => "S8"@,
        Register::S9 => "S9"@,
        Register::S10 => "S10"@,
        Register::S11 => "S11"@,
        Register::T3 => "T3"@,
        Register::T4 => "T4"@,
        Register::T5 => "T5"@,
        Register::T6 => "T6"@,
        Register::Pc => "Pc"@,
    }
}

impl Register {
    /// Name of the register
    pub fn name(&self) -> (r: &'static str)
        ensures
            r@ == reg_text(*self),
    {
        match self {
            Register::Zero => "Zero",
            Register::Ra => "Ra",
            Register::Sp => "Sp",
            Register::Gp => "Gp",
            Register::Tp => "Tp",
            Register::T0 => "T0",
            Register::T1 => "T1",
            Register::T2 => "T2",
            Register::S0 => "S0",
            Register::S1 => "S1",
            Register::A0 => "A0",
            Register::A1 => "A1",
            Register::A2 => "A2",
            Register::A3 => "A3",
            Register::A4 => "A4",
            Register::A5 => "A5",
            Register::A6 => "A6",
            Register::A7 => "A7",
            Register::S2 => "S2",
            Register::S3 => "S3",
            Register::S4 => "S4",
            Register::S5 => "S5",
            Register::S6 => "S6",
            Register::S7 => "S7",
            Register::S8 => "S8",
            Register::S9 => "S9",
            Register::S10 => "S10",
            Register::S11 => "S11",
            Register::T3 => "T3",
            Register::T4 => "T4",
            Register::T5 => "T5",
            Register::T6 => "T6",
            Register::Pc => "Pc",
        }
    }
}

/// Text of an IR value: a register by its name, an immediate in decimal
pub open spec fn val_text(v: Val) -> Seq<char> {
    match v {
        Val::Reg(r) => reg_text(r),
        Val::Imm(i) => signed_dec(i as int),
        Val::Imm64(i) => signed_dec(i as int),
    }
}

/// Text of an IR value with its kind, as `Debug` spells it
pub open spec fn val_debug_text(v: Val) -> Seq<char> {
    match v {
        Val::Reg(r) => "Reg("@ + reg_text(r) + ")"@,
        Val::Imm(i) => "Imm("@ + signed_dec(i as int) + ")"@,
        Val::Imm64(i) => "Imm64("@ + signed_dec(i as int) + ")"@,
    }
}

/// A jump offset: sign, `0x` and upper-case hexadecimal digits of its magnitude
pub open spec fn offset_text(x: i32) -> Seq<char> {
    if x < 0 {
        seq!['-'] + prefixed_hex((-x) as nat, true)
    } else {
        prefixed_hex(x as nat, true)
    }
}

impl Val {
    /// Text of the value: a register by its name, an immediate in decimal
    pub fn to_string(&self) -> (r: String)
        ensures
            r@ == val_text(*self),
    {
        match self {
            Val::Reg(r) => String::from_str(r.name()),
            Val::Imm(i) => dec_i32(*i),
            Val::Imm64(i) => dec_i64(*i),
        }
    }

    /// Text of the value with its kind
    pub fn debug_text(&self) -> (r: String)
        ensures
            r@ == val_debug_text(*self),
    {
        let (mut s, inner) = match self {
            Val::Reg(r) => (String::from_str("Reg("), String::from_str(r.name())),
            Val::Imm(i) => (String::from_str("Imm("), dec_i32(*i)),
            Val::Imm64(i) => (String::from_str("Imm64("), dec_i64(*i)),
        };
        s.append(inner.as_str());
        s.append(")");
        s
    }
}

fn offset_string(x: i32) -> (r: String)
    requires
        x != i32::MIN,
    ensures
        r@ == offset_text(x),
{
    if x < 0 {
        let mut s = String::from_str("-0x");
        let mag = bare_hex((-x) as u32);
        s.append(mag.as_str());
        proof {
            reveal_strlit("-0x");
            assert(s@ =~= offset_text(x));
        }
        s
    } else {
        let mut s = String::from_str("0x");
        let mag = bare_hex(x as u32);
        s.append(mag.as_str());
        proof {
            reveal_strlit("0x");
            assert(s@ =~= offset_text(x));
        }
        s
    }
}

/// The comparison a branch with these flags makes
pub open spec fn branch_op_text(flags: u16) -> Option<Seq<char>> {
    let c = flags & 0b111100;
    if c == 0b000100 {
        Some(" == "@)
    } else if c == 0b001000 {
        Some(" != "@)
    } else if c == 0b010000 {
        Some(" < "@)
    } else if c == 0b100000 {
        Some(" > "@)
    } else if c == 0b100100 {
        Some(" >= "@)
    } else if c == 0b010100 {
        Some(" <= "@)
    } else {
        None
    }
}

/// The operator an arithmetic IR operation is printed with, and what follows its operands
pub open spec fn alu_text(op: Operation) -> (Seq<char>, Seq<char>) {
    match op {
        Operation::Add => (" + "@, ""@),
        Operation::Sub => (" - "@, ""@),
        Operation::And => (" & "@, ""@),
        Operation::Or => (" | "@, ""@),
        Operation::Xor => (" ^ "@, ""@),
        Operation::Shl => (" << "@, ""@),
        Operation::Shr => (" >> "@, ""@),
        Operation::Sar => (" >> "@, " [A]"@),
        _ => (" < "@, " ? 1 : 0"@),
    }
}

/// The instruction can be printed: it has the operands its operation names
pub open spec fn printable(ins: IrView) -> bool {
    let (op, iv, out, flags, p) = ins;
    match op {
        Operation::Jmp(_) | Operation::Syscall => true,
        Operation::JmpOff(x) => iv.len() >= 1 && x != i32::MIN,
        Operation::Branch(_, _) => iv.len() >= 2 && branch_op_text(flags) is Some,
        Operation::Store => iv.len() >= 3,
        Operation::Load | Operation::Add | Operation::Sub | Operation::And | Operation::Or | Operation::Xor
        | Operation::Shl | Operation::Shr | Operation::Sar | Operation::Slt => out is Some && iv.len() >= 2,
        Operation::Mov => out is Some && iv.len() >= 1,
        _ => false,
    }
}

/// Text of a branch: the comparison and both targets, the fallthrough first
pub open spec fn branch_text(iv: Seq<Val>, flags: u16, x: usize, y: usize) -> Seq<char> {
    "  if "@ + val_text(iv[0]) + branch_op_text(flags).unwrap() + val_text(iv[1]) + " ("@ + prefixed_hex(
        y as nat,
        true,
    ) + ", "@ + prefixed_hex(x as nat, true) + ")"@
}

/// Text of an operation with an output register and one or two operands
pub open spec fn assign_text(op: Operation, iv: Seq<Val>, out: Register) -> Seq<char> {
    match op {
        Operation::Load => "  "@ + reg_text(out) + " = ["@ + val_text(iv[0]) + "+"@ + val_text(iv[1]) + "]"@,
        Operation::Mov => "  "@ + reg_text(out) + " = "@ + val_text(iv[0]),
        _ => "  "@ + reg_text(out) + " = "@ + val_text(iv[0]) + alu_text(op).0 + val_text(iv[1]) + alu_text(op).1,
    }
}

/// What an IR instruction does, as text
pub open spec fn op_text(ins: IrView) -> Seq<char> {
    let (op, iv, out, flags, p) = ins;
    match op {
        Operation::Jmp(x) => "  Jmp "@ + prefixed_hex(x as nat, false),
        Operation::JmpOff(x) => "  Jmp ("@ + val_debug_text(iv[0]) + " + "@ + offset_text(x) + ")"@,
        Operation::Branch(x, y) => branch_text(iv, flags, x, y),
        Operation::Syscall => "  Syscall"@,
        Operation::Store => "  ["@ + val_text(iv[0]) + "+"@ + val_text(iv[2]) + "] = "@ + val_text(iv[1]),
        _ => assign_text(op, iv, out.unwrap()),
    }
}

/// Text of an IR instruction: its pc (zero when it has none), then what it does
pub open spec fn instr_text(ins: IrView) -> Seq<char> {
    seq!['0', 'x'] + zero_padded(hex_digits(ins.4.unwrap_or(0) as nat, true), 6) + op_text(ins)
}

fn branch_op(flags: u16) -> (r: Option<&'static str>)
    ensures
        r matches Some(s) ==> branch_op_text(flags) == Some(s@),
        r is None ==> branch_op_text(flags) is None,
{
    let c = flags & 0b111100;
    if c == 0b000100 {
        Some(" == ")
    } else if c == 0b001000 {
        Some(" != ")
    } else if c == 0b010000 {
        Some(" < ")
    } else if c == 0b100000 {
        Some(" > ")
    } else if c == 0b100100 {
        Some(" >= ")
    } else if c == 0b010100 {
        Some(" <= ")
    } else {
        None
    }
}

fn alu_parts(op: Operation) -> (r: (&'static str, &'static str))
    ensures
        (r.0@, r.1@) == alu_text(op),
{
    match op {
        Operation::Add => (" + ", ""),
        Operation::Sub => (" - ", ""),
        Operation::And => (" & ", ""),
        Operation::Or => (" | ", ""),
        Operation::Xor => (" ^ ", ""),
        Operation::Shl => (" << ", ""),
        Operation::Shr => (" >> ", ""),
        Operation::Sar => (" >> ", " [A]"),
        _ => (" < ", " ? 1 : 0"),
    }
}

impl Instruction {
    /// The instruction can be printed
    pub fn is_printable(&self) -> (r: bool)
        ensures
            r == printable(ir_view(*self)),
    {
        let n = self.i_reg.len();
        match self.op {
            Operation::Jmp(_) | Operation::Syscall => true,
            Operation::JmpOff(x) => n >= 1 && x != i32::MIN,
            Operation::Branch(_, _) => n >= 2 && branch_op(self.flags).is_some(),
            Operation::Store => n >= 3,
            Operation::Load | Operation::Add | Operation::Sub | Operation::And | Operation::Or | Operation::Xor
            | Operation::Shl | Operation::Shr | Operation::Sar | Operation::Slt => self.o_reg.is_some() && n >= 2,
            Operation::Mov => self.o_reg.is_some() && n >= 1,
            _ => false,
        }
    }

    /// Text of the instruction: its pc, then what it does
    pub fn to_string(&self) -> (r: String)
        requires
            printable(ir_view(*self)),
        ensures
            r@ == instr_text(ir_view(*self)),
    {
        let pc = match self.pc {
            Some(p) => p,
            None => 0,
        };
        let mut s = pc_text(pc);
        let t = self.op_string();
        s.append(t.as_str());
        s
    }

    fn op_string(&self) -> (r: String)
        requires
            printable(ir_view(*self)),
        ensures
            r@ == op_text(ir_view(*self)),
    {
        let iv = &self.i_reg;
        match self.op {
            Operation::Jmp(x) => {
                let mut s = String::from_str("  Jmp ");
                s.append(hex_lower(x).as_str());
                s
            },
            Operation::JmpOff(x) => {
                let mut s = String::from_str("  Jmp (");
                s.append(iv[0].debug_text().as_str());
                s.append(" + ");
                s.append(offset_string(x).as_str());
                s.append(")");
                s
            },
            Operation::Branch(x, y) => self.branch_string(x, y),
            Operation::Syscall => String::from_str("  Syscall"),
            Operation::Store => {
                let mut s = String::from_str("  [");
                s.append(iv[0].to_string().as_str());
                s.append("+");
                s.append(iv[2].to_string().as_str());
                s.append("] = ");
                s.append(iv[1].to_string().as_str());
                s
            },
            _ => self.assign_string(),
        }
    }

    fn branch_string(&self, x: usize, y: usize) -> (r: String)
        requires
            self.i_reg@.len() >= 2,
            branch_op_text(self.flags) is Some,
        ensures
            r@ == branch_text(self.i_reg@, self.flags, x, y),
    {
        let iv = &self.i_reg;
        let mut s = String::from_str("  if ");
        s.append(iv[0].to_string().as_str());
        s.append(branch_op(self.flags).unwrap());
        s.append(iv[1].to_string().as_str());
        s.append(" (");
        s.append(hex_upper(y).as_str());
        s.append(", ");
        s.append(hex_upper(x).as_str());
        s.append(")");
        s
    }

    fn assign_string(&self) -> (r: String)
        requires
            self.o_reg is Some,
            self.i_reg@.len() >= 2 || (self.op is Mov && self.i_reg@.len() >= 1),
        ensures
            r@ == assign_text(self.op, self.i_reg@, self.o_reg.unwrap()),
    {
        let iv = &self.i_reg;
        let mut s = String::from_str("  ");
        s.append(self.o_reg.unwrap().name());
        match self.op {
            Operation::Load => {
                s.append(" = [");
                s.append(iv[0].to_string().as_str());
                s.append("+");
                s.append(iv[1].to_string().as_str());
                s.append("]");
            },
            Operation::Mov => {
                s.append(" = ");
                s.append(iv[0].to_string().as_str());
            },
            _ => {
                let (sym, tail) = alu_parts(self.op);
                s.append(" = ");
                s.append(iv[0].to_string().as_str());
                s.append(sym);
                s.append(iv[1].to_string().as_str());
                s.append(tail);
            },
        }
        s
    }
}

} // verus!
