//! Code generation for the JIT: IR instructions are lowered to a list of x86-64 instructions
//! that an assembler turns into machine code.
//!
//! Register conventions of the generated code:
//! rax, rbx, rcx, rdx : scratch
//! rsi : instructions executed
//! r8  : fuzzer state (coverage maps, counters, trace buffer)
//! r9  : current size of the dirty list
//! r10 : dirty list
//! r11 : dirty list bitmap
//! r12 : permissions
//! r13 : memory
//! r14 : memory mapped register array
//! r15 : jit lookup array
use vstd::prelude::*;

use std::collections::HashMap;

use crate::config::{CovMethod, MAX_GUEST_ADDR};
use crate::emulator::{ExitType, branch_flags, compare_holds, riscv_branch_taken, signed64};
use crate::irgraph::{Flag, IRGraph, Instruction, Operation, Val, ir_view, ir_views};
use crate::mmu::Perms;
use crate::registers::Register;

verus! {

broadcast use vstd::std_specs::hash::group_hash_axioms;

/// Library functions for which the JIT emits hand-written code in place of the guest's own
#[derive(Clone, Debug, Copy, PartialEq, Eq, Structural)]
pub enum LibFuncs {
    STRLEN,
    STRCMP,
}

/// The x86-64 general purpose registers the generated code uses
#[derive(Clone, Debug, Copy, PartialEq, Eq, Structural)]
pub enum Gpr {
    Rax,
    Rbx,
    Rcx,
    Rdx,
    Rsi,
    R8,
    R9,
    R10,
    R11,
    R12,
    R13,
    R14,
    R15,
}

/// The part of a register an operand names
#[derive(Clone, Debug, Copy, PartialEq, Eq, Structural)]
pub enum Width {
    /// Lowest byte (al, bl, cl, dl)
    Low8,
    /// Second byte (ah, bh, ch, dh)
    High8,
    /// Lowest 16 bits
    W16,
    /// Lowest 32 bits
    W32,
    /// The whole register
    W64,
}

/// Size annotation of a memory operand
#[derive(Clone, Debug, Copy, PartialEq, Eq, Structural)]
pub enum MemSize {
    /// No size given; the other operand decides
    Any,
    Byte,
    Word,
    DWord,
    QWord,
}

/// A memory operand `[base + index * scale + disp]`
#[derive(Clone, Debug, Copy, PartialEq, Eq, Structural)]
pub struct Mem {
    pub size: MemSize,
    pub base: Gpr,
    pub index: Option<Gpr>,
    pub scale: u8,
    pub disp: i64,
}

/// An instruction operand
#[derive(Clone, Debug, Copy, PartialEq, Eq, Structural)]
pub enum Opnd {
    Reg(Gpr, Width),
    Mem(Mem),
    U64(u64),
    I32(i32),
    U32(u32),
    /// Address of the fuzz case's instruction budget, known only to the code's owner
    TimeoutAddr,
    /// Bit number in the comparison coverage map: the byte of the comparison made by the
    /// branch at the given IR position
    CmpCovBit(usize, usize),
    /// Distance between the snapshot stub's return address and its start, known only once the
    /// stub that reenters at the given pc is encoded
    SnapshotOffset(usize),
}

/// Two-operand instructions
#[derive(Clone, Debug, Copy, PartialEq, Eq, Structural)]
pub enum Op2 {
    Mov,
    Movzx,
    Movsx,
    Movsxd,
    Lea,
    Add,
    Sub,
    And,
    Or,
    Xor,
    Cmp,
    Test,
    Shl,
    Shr,
    Sar,
    Bts,
}

/// One-operand instructions
#[derive(Clone, Debug, Copy, PartialEq, Eq, Structural)]
pub enum Op1 {
    Inc,
    Dec,
    Push,
    Pop,
    Setl,
    Setb,
    /// Indirect jump through a register
    Jmp,
}

/// Conditions of conditional jumps
#[derive(Clone, Debug, Copy, PartialEq, Eq, Structural)]
pub enum Cond {
    E,
    Ne,
    Z,
    Nz,
    Nl,
    Ng,
    Nle,
    Nge,
    B,
    Nb,
    A,
    Na,
    Nbe,
    Nae,
    C,
}

/// One step of generated code
#[derive(Clone, Debug, Copy, PartialEq, Eq, Structural)]
pub enum X86Instr {
    Op2(Op2, Opnd, Opnd),
    Op1(Op1, Opnd),
    /// Conditional jump to a label
    Jcc(Cond, usize),
    /// Jump to a label
    JmpLabel(usize),
    /// Call to a label
    Call(usize),
    Ret,
    Nop,
    /// Binds a label to the next instruction
    Label(usize),
    /// The code of the guest instruction at this pc starts here: record it in the lookup table
    Mark(usize),
    /// Jump to the code of the guest pc; the label is free for the code that does it
    GuestJump(usize, usize),
}

/// A register accessed whole
pub open spec fn r64(g: Gpr) -> Opnd {
    Opnd::Reg(g, Width::W64)
}

/// The lower 32 bits of a register
pub open spec fn r32(g: Gpr) -> Opnd {
    Opnd::Reg(g, Width::W32)
}

/// `[base + disp]`
pub open spec fn at(size: MemSize, base: Gpr, disp: int) -> Opnd {
    Opnd::Mem(Mem { size, base, index: None, scale: 1, disp: disp as i64 })
}

/// `[base + index * scale]`
pub open spec fn at_index(size: MemSize, base: Gpr, index: Gpr, scale: u8) -> Opnd {
    Opnd::Mem(Mem { size, base, index: Some(index), scale, disp: 0 })
}

/// Slot of a guest register in the memory mapped register array
pub open spec fn slot(r: Register) -> Opnd {
    at(MemSize::Any, Gpr::R14, r.id() * 8)
}

/// `mov dst, src`
pub open spec fn mov(dst: Opnd, src: Opnd) -> X86Instr {
    X86Instr::Op2(Op2::Mov, dst, src)
}

/// Code that leaves the JIT with an exit code and a reentry address
pub open spec fn exit_code(code: u64, reentry: Opnd) -> Seq<X86Instr> {
    seq![mov(r64(Gpr::Rax), Opnd::U64(code)), mov(r64(Gpr::Rcx), reentry), X86Instr::Ret]
}

/// Code that returns from a hand-written library function to the guest's return address
pub open spec fn lib_return() -> Seq<X86Instr> {
    seq![
        mov(r64(Gpr::Rbx), slot(Register::Ra)),
        X86Instr::Op2(Op2::Shl, r64(Gpr::Rbx), Opnd::I32(1)),
        mov(r64(Gpr::Rbx), at_index(MemSize::Any, Gpr::R15, Gpr::Rbx, 1)),
        X86Instr::Op1(Op1::Jmp, r64(Gpr::Rbx)),
    ]
}

/// strlen(A0): count the bytes up to the first zero
pub open spec fn strlen_code() -> Seq<X86Instr> {
    seq![
        mov(r64(Gpr::Rbx), slot(Register::A0)),
        X86Instr::Op2(Op2::Add, r64(Gpr::Rbx), r64(Gpr::R13)),
        X86Instr::Op2(Op2::Lea, r64(Gpr::Rax), at(MemSize::Any, Gpr::Rbx, -1)),
        X86Instr::Label(0),
        X86Instr::Op1(Op1::Inc, r64(Gpr::Rax)),
        mov(Opnd::Reg(Gpr::Rcx, Width::Low8), at(MemSize::Byte, Gpr::Rax, 0)),
        X86Instr::Op2(Op2::Test, Opnd::Reg(Gpr::Rcx, Width::Low8), Opnd::Reg(Gpr::Rcx, Width::Low8)),
        X86Instr::Jcc(Cond::Nz, 0),
        X86Instr::Op2(Op2::Sub, r64(Gpr::Rax), r64(Gpr::Rbx)),
        mov(slot(Register::A0), r64(Gpr::Rax)),
    ] + lib_return()
}

/// The result of strcmp written to A0, followed by the return
pub open spec fn strcmp_result(first: Seq<X86Instr>) -> Seq<X86Instr> {
    seq![X86Instr::Op2(Op2::Xor, r64(Gpr::Rcx), r64(Gpr::Rcx))] + first + seq![
        mov(slot(Register::A0), r64(Gpr::Rcx)),
    ] + lib_return()
}

/// strcmp(A0, A1): compare byte by byte up to the first zero of A0; 1, -1 or 0
pub open spec fn strcmp_code() -> Seq<X86Instr> {
    let dl = Opnd::Reg(Gpr::Rdx, Width::Low8);
    let dh = Opnd::Reg(Gpr::Rdx, Width::High8);
    seq![
        mov(r64(Gpr::Rax), slot(Register::A0)),
        mov(r64(Gpr::Rbx), slot(Register::A1)),
        X86Instr::Op2(Op2::Add, r64(Gpr::Rax), r64(Gpr::R13)),
        X86Instr::Op2(Op2::Add, r64(Gpr::Rbx), r64(Gpr::R13)),
        X86Instr::Op2(Op2::Xor, r64(Gpr::Rcx), r64(Gpr::Rcx)),
        X86Instr::Label(0),
        mov(dl, at_index(MemSize::Byte, Gpr::Rax, Gpr::Rcx, 1)),
        mov(dh, at_index(MemSize::Byte, Gpr::Rbx, Gpr::Rcx, 1)),
        X86Instr::Op1(Op1::Inc, r64(Gpr::Rcx)),
        X86Instr::Op2(Op2::Test, dl, dl),
        X86Instr::Jcc(Cond::Z, 3),
        X86Instr::Op2(Op2::Cmp, dl, dh),
        X86Instr::Jcc(Cond::E, 0),
        X86Instr::Jcc(Cond::B, 2),
        X86Instr::Label(1),
    ] + strcmp_result(seq![X86Instr::Op1(Op1::Inc, r64(Gpr::Rcx))]) + seq![X86Instr::Label(2)]
        + strcmp_result(seq![X86Instr::Op1(Op1::Dec, r64(Gpr::Rcx))]) + seq![
        X86Instr::Label(3),
        X86Instr::Op2(Op2::Test, dh, dh),
        X86Instr::Jcc(Cond::Nz, 2),
    ] + strcmp_result(seq![])
}

/// Code of a hand-written library function
pub open spec fn lib_code(func: LibFuncs) -> Seq<X86Instr> {
    match func {
        LibFuncs::STRLEN => strlen_code(),
        LibFuncs::STRCMP => strcmp_code(),
    }
}

fn push_all(v: &mut Vec<X86Instr>, items: Vec<X86Instr>)
    ensures
        final(v)@ == old(v)@ + items@,
{
    let mut items = items;
    v.append(&mut items);
}

fn emit_exit(v: &mut Vec<X86Instr>, code: u64, reentry: Opnd)
    ensures
        final(v)@ == old(v)@ + exit_code(code, reentry),
{
    v.push(X86Instr::Op2(Op2::Mov, Opnd::Reg(Gpr::Rax, Width::W64), Opnd::U64(code)));
    v.push(X86Instr::Op2(Op2::Mov, Opnd::Reg(Gpr::Rcx, Width::W64), reentry));
    v.push(X86Instr::Ret);
    assert(final(v)@ =~= old(v)@ + exit_code(code, reentry));
}

/// Slot of a guest register in the memory mapped register array
pub fn reg_slot(r: Register) -> (o: Opnd)
    ensures
        o == slot(r),
{
    let off = r.get_offset();
    Opnd::Mem(Mem { size: MemSize::Any, base: Gpr::R14, index: None, scale: 1, disp: off as i64 })
}

fn emit_lib_return(v: &mut Vec<X86Instr>)
    ensures
        final(v)@ == old(v)@ + lib_return(),
{
    let rbx = Opnd::Reg(Gpr::Rbx, Width::W64);
    v.push(X86Instr::Op2(Op2::Mov, rbx, reg_slot(Register::Ra)));
    v.push(X86Instr::Op2(Op2::Shl, rbx, Opnd::I32(1)));
    v.push(X86Instr::Op2(Op2::Mov, rbx, Opnd::Mem(Mem {
        size: MemSize::Any, base: Gpr::R15, index: Some(Gpr::Rbx), scale: 1, disp: 0 })));
    v.push(X86Instr::Op1(Op1::Jmp, rbx));
    assert(final(v)@ =~= old(v)@ + lib_return());
}

/// JIT-compiled strlen implementation
pub fn compile_strlen() -> (r: Vec<X86Instr>)
    ensures
        r@ == strlen_code(),
{
    let rax = Opnd::Reg(Gpr::Rax, Width::W64);
    let rbx = Opnd::Reg(Gpr::Rbx, Width::W64);
    let cl = Opnd::Reg(Gpr::Rcx, Width::Low8);
    let mut v: Vec<X86Instr> = Vec::new();
    v.push(X86Instr::Op2(Op2::Mov, rbx, reg_slot(Register::A0)));
    v.push(X86Instr::Op2(Op2::Add, rbx, Opnd::Reg(Gpr::R13, Width::W64)));
    v.push(X86Instr::Op2(Op2::Lea, rax, Opnd::Mem(Mem {
        size: MemSize::Any, base: Gpr::Rbx, index: None, scale: 1, disp: -1 })));
    v.push(X86Instr::Label(0));
    v.push(X86Instr::Op1(Op1::Inc, rax));
    v.push(X86Instr::Op2(Op2::Mov, cl, Opnd::Mem(Mem {
        size: MemSize::Byte, base: Gpr::Rax, index: None, scale: 1, disp: 0 })));
    v.push(X86Instr::Op2(Op2::Test, cl, cl));
    v.push(X86Instr::Jcc(Cond::Nz, 0));
    v.push(X86Instr::Op2(Op2::Sub, rax, rbx));
    v.push(X86Instr::Op2(Op2::Mov, reg_slot(Register::A0), rax));
    let ghost head = v@;
    emit_lib_return(&mut v);
    assert(head =~= strlen_code().subrange(0, 10));
    assert(v@ =~= strlen_code());
    v
}

fn emit_strcmp_result(v: &mut Vec<X86Instr>, first: Vec<X86Instr>)
    ensures
        final(v)@ == old(v)@ + strcmp_result(first@),
{
    let rcx = Opnd::Reg(Gpr::Rcx, Width::W64);
    v.push(X86Instr::Op2(Op2::Xor, rcx, rcx));
    let ghost f = first@;
    push_all(v, first);
    v.push(X86Instr::Op2(Op2::Mov, reg_slot(Register::A0), rcx));
    emit_lib_return(v);
    assert(final(v)@ =~= old(v)@ + strcmp_result(f));
}

fn one(i: X86Instr) -> (r: Vec<X86Instr>)
    ensures
        r@ == seq![i],
{
    let mut v: Vec<X86Instr> = Vec::new();
    v.push(i);
    assert(v@ =~= seq![i]);
    v
}

/// JIT-compiled strcmp implementation
pub fn compile_strcmp() -> (r: Vec<X86Instr>)
    ensures
        r@ == strcmp_code(),
{
    let rax = Opnd::Reg(Gpr::Rax, Width::W64);
    let rbx = Opnd::Reg(Gpr::Rbx, Width::W64);
    let rcx = Opnd::Reg(Gpr::Rcx, Width::W64);
    let r13 = Opnd::Reg(Gpr::R13, Width::W64);
    let dl = Opnd::Reg(Gpr::Rdx, Width::Low8);
    let dh = Opnd::Reg(Gpr::Rdx, Width::High8);
    let mut v: Vec<X86Instr> = Vec::new();
    v.push(X86Instr::Op2(Op2::Mov, rax, reg_slot(Register::A0)));
    v.push(X86Instr::Op2(Op2::Mov, rbx, reg_slot(Register::A1)));
    v.push(X86Instr::Op2(Op2::Add, rax, r13));
    v.push(X86Instr::Op2(Op2::Add, rbx, r13));
    v.push(X86Instr::Op2(Op2::Xor, rcx, rcx));
    v.push(X86Instr::Label(0));
    v.push(X86Instr::Op2(Op2::Mov, dl, Opnd::Mem(Mem {
        size: MemSize::Byte, base: Gpr::Rax, index: Some(Gpr::Rcx), scale: 1, disp: 0 })));
    v.push(X86Instr::Op2(Op2::Mov, dh, Opnd::Mem(Mem {
        size: MemSize::Byte, base: Gpr::Rbx, index: Some(Gpr::Rcx), scale: 1, disp: 0 })));
    v.push(X86Instr::Op1(Op1::Inc, rcx));
    v.push(X86Instr::Op2(Op2::Test, dl, dl));
    v.push(X86Instr::Jcc(Cond::Z, 3));
    v.push(X86Instr::Op2(Op2::Cmp, dl, dh));
    v.push(X86Instr::Jcc(Cond::E, 0));
    v.push(X86Instr::Jcc(Cond::B, 2));
    v.push(X86Instr::Label(1));
    let ghost p1 = v@;
    emit_strcmp_result(&mut v, one(X86Instr::Op1(Op1::Inc, rcx)));
    v.push(X86Instr::Label(2));
    let ghost p2 = v@;
    emit_strcmp_result(&mut v, one(X86Instr::Op1(Op1::Dec, rcx)));
    v.push(X86Instr::Label(3));
    v.push(X86Instr::Op2(Op2::Test, dh, dh));
    v.push(X86Instr::Jcc(Cond::Nz, 2));
    let ghost p3 = v@;
    let none: Vec<X86Instr> = Vec::new();
    assert(none@ =~= Seq::<X86Instr>::empty());
    emit_strcmp_result(&mut v, none);
    proof {
        let s1 = strcmp_result(seq![X86Instr::Op1(Op1::Inc, rcx)]);
        let s2 = strcmp_result(seq![X86Instr::Op1(Op1::Dec, rcx)]);
        assert(p2 == p1 + s1 + seq![X86Instr::Label(2)]);
        assert(p3 == p2 + s2 + seq![X86Instr::Label(3), X86Instr::Op2(Op2::Test, dh, dh),
            X86Instr::Jcc(Cond::Nz, 2)]);
        assert(v@ =~= strcmp_code());
    }
    v
}

/// Code of a hand-written library function
pub fn compile_lib(func: LibFuncs) -> (r: Vec<X86Instr>)
    ensures
        r@ == lib_code(func),
{
    match func {
        LibFuncs::STRLEN => compile_strlen(),
        LibFuncs::STRCMP => compile_strcmp(),
    }
}

/// Settings the generated code depends on
#[derive(Clone, Debug, Copy)]
pub struct JitOptions {
    /// Coverage tracked at the start of each block
    pub cov_method: CovMethod,
    /// Push all registers to the trace buffer before each guest instruction
    pub full_trace: bool,
    /// Memory accesses skip the byte-level permission checks
    pub no_perm_checks: bool,
    /// Branches on equality record which bytes of the comparison matched
    pub compare_cov: bool,
}

/// What the compiler needs to know about the target besides the code
#[derive(Debug)]
pub struct CompileInputs {
    /// Total size of allocated emulator memory
    pub mem_size: usize,
    /// Starting address of each CFG block
    pub leaders: HashMap<usize, usize>,
}

/// Label `j` of the IR instruction at position `k`: each instruction owns sixteen labels
pub open spec fn lbl(k: int, j: int) -> usize {
    (16 * k + j) as usize
}

/// Scratch register that holds the `i`-th input of an instruction
pub open spec fn tmp(i: int) -> Gpr {
    if i == 0 {
        Gpr::Rbx
    } else {
        Gpr::Rcx
    }
}

/// Load a guest register into a scratch register
pub open spec fn load_reg(r: Register, i: int) -> Seq<X86Instr> {
    seq![mov(r64(tmp(i)), slot(r))]
}

/// Write a result back to the guest register's slot
pub open spec fn save_reg(out: Register, src: Gpr) -> Seq<X86Instr> {
    seq![mov(slot(out), r64(src))]
}

/// Code of a `Mov`
pub open spec fn mov_code(input: Val, out: Register) -> Seq<X86Instr> {
    load_reg(out, 0) + match input {
        Val::Reg(v) => load_reg(v, 1) + seq![mov(r64(Gpr::Rbx), r64(Gpr::Rcx))],
        Val::Imm(v) => seq![mov(r64(Gpr::Rbx), Opnd::U64(v as u64))],
        Val::Imm64(v) => seq![mov(r64(Gpr::Rbx), Opnd::U64(v as u64))],
    } + save_reg(out, Gpr::Rbx)
}

/// The x86 instruction that performs an arithmetic IR operation
pub open spec fn alu_op(op: Operation) -> Op2 {
    match op {
        Operation::Sub => Op2::Sub,
        Operation::And => Op2::And,
        Operation::Or => Op2::Or,
        Operation::Xor => Op2::Xor,
        Operation::Shl => Op2::Shl,
        Operation::Shr => Op2::Shr,
        Operation::Sar => Op2::Sar,
        _ => Op2::Add,
    }
}

/// What an x86 two-operand arithmetic instruction leaves in a 64-bit destination that held `x`,
/// given the source value `y`; shift counts are masked to 6 bits as in 64-bit mode
pub open spec fn x86_alu64(o: Op2, x: u64, y: u64) -> u64 {
    match o {
        Op2::Add => ((x as int + y as int) % 0x1_0000_0000_0000_0000) as u64,
        Op2::Sub => ((x as int - y as int + 0x1_0000_0000_0000_0000) % 0x1_0000_0000_0000_0000) as u64,
        Op2::And => x & y,
        Op2::Or => x | y,
        Op2::Xor => x ^ y,
        Op2::Shl => x << (y % 64),
        Op2::Shr => x >> (y % 64),
        Op2::Sar => if x < 0x8000_0000_0000_0000 {
            x >> (y % 64)
        } else {
            !((!x) >> (y % 64))
        },
        Op2::Mov => y,
        _ => 0,
    }
}

/// The 64-bit result of an arithmetic IR operation on `x` and `y`, as RV64I defines add, sub,
/// and, or, xor, sll, srl (shifting in zeros) and sra (shifting in the sign bit); shift amounts
/// are the low 6 bits of `y`
pub open spec fn ir_alu64(op: Operation, x: u64, y: u64) -> u64 {
    match op {
        Operation::Add => ((x as int + y as int) % 0x1_0000_0000_0000_0000) as u64,
        Operation::Sub => ((x as int - y as int + 0x1_0000_0000_0000_0000) % 0x1_0000_0000_0000_0000) as u64,
        Operation::And => x & y,
        Operation::Or => x | y,
        Operation::Xor => x ^ y,
        Operation::Shl => x << (y % 64),
        Operation::Shr => x >> (y % 64),
        Operation::Sar => if x < 0x8000_0000_0000_0000 {
            x >> (y % 64)
        } else {
            !((!x) >> (y % 64))
        },
        _ => 0,
    }
}

/// The IR operations that lower to one x86 arithmetic instruction
pub open spec fn is_alu(op: Operation) -> bool {
    op is Add || op is Sub || op is And || op is Or || op is Xor || op is Shl || op is Shr || op is Sar
}

/// The code of a 64-bit arithmetic IR operation holds an arithmetic instruction (not a move)
/// into the result register whose result is that of the IR operation, for all operand values:
/// logical shifts stay logical, arithmetic ones arithmetic
pub proof fn lemma_alu_code_computes_ir_op(
    op: Operation,
    in1: Register,
    in2: Val,
    out: Register,
    flags: u16,
    x: u64,
    y: u64,
)
    requires
        is_alu(op),
        flags != Flag::DWord,
        !(in2 is Imm64),
    ensures
        exists|k: int|
            0 <= k < alu_code(op, in1, in2, out, flags).len() && (#[trigger] alu_code(op, in1, in2, out, flags)[k] matches X86Instr::Op2(
                o,
                Opnd::Reg(Gpr::Rbx, Width::W64),
                _,
            ) && o != Op2::Mov && x86_alu64(o, x, y) == ir_alu64(op, x, y)),
{
    let code = alu_code(op, in1, in2, out, flags);
    let k: int = if in2 is Imm {
        1
    } else if is_shift(op) {
        3
    } else {
        2
    };
    assert(code[k] == X86Instr::Op2(alu_op(op), Opnd::Reg(Gpr::Rbx, Width::W64), code[k]->Op2_2));
}

/// Operations that come in a 32-bit and a 64-bit form
pub open spec fn is_sized(op: Operation) -> bool {
    op is Add || op is Sub || op is Shl || op is Shr || op is Sar
}

/// Shifts take a register count in cl
pub open spec fn is_shift(op: Operation) -> bool {
    op is Shl || op is Shr || op is Sar
}

/// Arithmetic with a register as second input, at the given width of the destination
pub open spec fn alu_reg(o: Op2, shift: bool, w: Width) -> Seq<X86Instr> {
    if shift {
        seq![
            mov(r64(Gpr::Rcx), r64(Gpr::Rcx)),
            X86Instr::Op2(o, Opnd::Reg(Gpr::Rbx, w), Opnd::Reg(Gpr::Rcx, Width::Low8)),
        ]
    } else {
        seq![X86Instr::Op2(o, Opnd::Reg(Gpr::Rbx, w), Opnd::Reg(Gpr::Rcx, w))]
    }
}

/// Sign extension of a 32-bit result, as RISC-V asks of its 32-bit instructions
pub open spec fn sext32() -> Seq<X86Instr> {
    seq![X86Instr::Op2(Op2::Movsxd, r64(Gpr::Rbx), r32(Gpr::Rbx))]
}

/// Code of the arithmetic operations
pub open spec fn alu_code(op: Operation, in1: Register, in2: Val, out: Register, flags: u16) -> Seq<X86Instr> {
    let o = alu_op(op);
    let w = if is_sized(op) && flags == Flag::DWord { Width::W32 } else { Width::W64 };
    let ext = if is_sized(op) && flags == Flag::DWord { sext32() } else { seq![] };
    load_reg(in1, 0) + match in2 {
        Val::Reg(v) => load_reg(v, 1) + alu_reg(o, is_shift(op), w),
        Val::Imm(v) => seq![X86Instr::Op2(o, Opnd::Reg(Gpr::Rbx, w), Opnd::I32(v))],
        Val::Imm64(_) => seq![],
    } + ext + save_reg(out, Gpr::Rbx)
}

/// Code of a set-less-than
pub open spec fn slt_code(in1: Register, in2: Val, out: Register, flags: u16) -> Seq<X86Instr> {
    load_reg(in1, 0) + seq![
        X86Instr::Op1(Op1::Push, r64(Gpr::R15)),
        mov(r64(Gpr::R15), r64(Gpr::Rbx)),
        X86Instr::Op2(Op2::Xor, r32(Gpr::Rcx), r32(Gpr::Rcx)),
    ] + match in2 {
        Val::Reg(v) => load_reg(v, 0) + seq![X86Instr::Op2(Op2::Cmp, r64(Gpr::R15), r64(Gpr::Rbx))],
        Val::Imm(v) => seq![X86Instr::Op2(Op2::Cmp, r64(Gpr::R15), Opnd::I32(v))],
        Val::Imm64(_) => seq![],
    } + seq![
        X86Instr::Op1(if flags == Flag::Signed { Op1::Setl } else { Op1::Setb }, Opnd::Reg(Gpr::Rcx, Width::Low8)),
    ] + save_reg(out, Gpr::Rcx) + seq![X86Instr::Op1(Op1::Pop, r64(Gpr::R15))]
}

/// Whether an x86 set instruction `s` sets its byte after `cmp` of `a` with `b`: `setl`
/// compares as signed numbers, `setb` as unsigned ones
pub open spec fn set_after_compare(s: Op1, a: u64, b: u64) -> bool {
    match s {
        Op1::Setl => signed64(a) < signed64(b),
        Op1::Setb => a < b,
        _ => false,
    }
}

/// The code of a set-less-than with the flags that the lifter gives slt and slti (`Signed`) or
/// sltu and sltiu (`Unsigned`) sets, right after its compare, the low byte of rcx exactly when the first operand is less
/// than the second, as signed or as unsigned numbers, for all operand values
pub proof fn lemma_set_less_than_code(in1: Register, in2: Val, out: Register, signed: bool, a: u64, b: u64)
    requires
        !(in2 is Imm64),
    ensures
        ({
            let code = slt_code(in1, in2, out, if signed { Flag::Signed } else { Flag::Unsigned });
            let k: int = if in2 is Reg { 6 } else { 5 };
            &&& k < code.len()
            &&& code[k] matches X86Instr::Op1(s, Opnd::Reg(Gpr::Rcx, Width::Low8)) && (set_after_compare(s, a, b)
                <==> if signed {
                signed64(a) < signed64(b)
            } else {
                a < b
            })
        }),
{
    let flags = if signed { Flag::Signed } else { Flag::Unsigned };
    let code = slt_code(in1, in2, out, flags);
    let k: int = if in2 is Reg { 6 } else { 5 };
    let s = if signed { Op1::Setl } else { Op1::Setb };
    assert(code[k] == X86Instr::Op1(s, Opnd::Reg(Gpr::Rcx, Width::Low8)));
}

fn emit(v: &mut Vec<X86Instr>, i: X86Instr)
    ensures
        final(v)@ == old(v)@ + seq![i],
{
    v.push(i);
    assert(final(v)@ =~= old(v)@ + seq![i]);
}

fn scratch(i: usize) -> (g: Gpr)
    ensures
        g == tmp(i as int),
{
    if i == 0 {
        Gpr::Rbx
    } else {
        Gpr::Rcx
    }
}

fn emit_load_reg(v: &mut Vec<X86Instr>, r: Register, i: usize)
    ensures
        final(v)@ == old(v)@ + load_reg(r, i as int),
{
    emit(v, X86Instr::Op2(Op2::Mov, Opnd::Reg(scratch(i), Width::W64), reg_slot(r)));
}

fn emit_save_reg(v: &mut Vec<X86Instr>, out: Register, src: Gpr)
    ensures
        final(v)@ == old(v)@ + save_reg(out, src),
{
    emit(v, X86Instr::Op2(Op2::Mov, reg_slot(out), Opnd::Reg(src, Width::W64)));
}

fn lower_mov(v: &mut Vec<X86Instr>, input: Val, out: Register)
    ensures
        final(v)@ == old(v)@ + mov_code(input, out),
{
    let ghost start = v@;
    let rbx = Opnd::Reg(Gpr::Rbx, Width::W64);
    emit_load_reg(v, out, 0);
    let ghost mid = v@;
    match input {
        Val::Reg(r) => {
            emit_load_reg(v, r, 1);
            emit(v, X86Instr::Op2(Op2::Mov, rbx, Opnd::Reg(Gpr::Rcx, Width::W64)));
        },
        Val::Imm(i) => {
            emit(v, X86Instr::Op2(Op2::Mov, rbx, Opnd::U64(i as u64)));
        },
        Val::Imm64(i) => {
            emit(v, X86Instr::Op2(Op2::Mov, rbx, Opnd::U64(i as u64)));
        },
    }
    let ghost mid2 = v@;
    emit_save_reg(v, out, Gpr::Rbx);
    proof {
        let m = match input {
            Val::Reg(r) => load_reg(r, 1) + seq![mov(r64(Gpr::Rbx), r64(Gpr::Rcx))],
            Val::Imm(i) => seq![mov(r64(Gpr::Rbx), Opnd::U64(i as u64))],
            Val::Imm64(i) => seq![mov(r64(Gpr::Rbx), Opnd::U64(i as u64))],
        };
        assert(mid2 =~= mid + m);
        assert(final(v)@ =~= start + mov_code(input, out));
    }
}

fn op_of(op: Operation) -> (o: Op2)
    ensures
        o == alu_op(op),
{
    match op {
        Operation::Sub => Op2::Sub,
        Operation::And => Op2::And,
        Operation::Or => Op2::Or,
        Operation::Xor => Op2::Xor,
        Operation::Shl => Op2::Shl,
        Operation::Shr => Op2::Shr,
        Operation::Sar => Op2::Sar,
        _ => Op2::Add,
    }
}

fn lower_alu(v: &mut Vec<X86Instr>, op: Operation, in1: Register, in2: Val, out: Register, flags: u16)
    ensures
        final(v)@ == old(v)@ + alu_code(op, in1, in2, out, flags),
{
    let ghost start = v@;
    let o = op_of(op);
    let sized = matches!(op, Operation::Add | Operation::Sub | Operation::Shl | Operation::Shr | Operation::Sar);
    let shift = matches!(op, Operation::Shl | Operation::Shr | Operation::Sar);
    let narrow = sized && flags == Flag::DWord;
    let w = if narrow { Width::W32 } else { Width::W64 };
    emit_load_reg(v, in1, 0);
    let ghost a = v@;
    match in2 {
        Val::Reg(r) => {
            emit_load_reg(v, r, 1);
            if shift {
                emit(v, X86Instr::Op2(Op2::Mov, Opnd::Reg(Gpr::Rcx, Width::W64), Opnd::Reg(Gpr::Rcx, Width::W64)));
                emit(v, X86Instr::Op2(o, Opnd::Reg(Gpr::Rbx, w), Opnd::Reg(Gpr::Rcx, Width::Low8)));
            } else {
                emit(v, X86Instr::Op2(o, Opnd::Reg(Gpr::Rbx, w), Opnd::Reg(Gpr::Rcx, w)));
            }
        },
        Val::Imm(i) => {
            emit(v, X86Instr::Op2(o, Opnd::Reg(Gpr::Rbx, w), Opnd::I32(i)));
        },
        Val::Imm64(_) => {},
    }
    let ghost b = v@;
    if narrow {
        emit(v, X86Instr::Op2(Op2::Movsxd, Opnd::Reg(Gpr::Rbx, Width::W64), Opnd::Reg(Gpr::Rbx, Width::W32)));
    }
    let ghost c = v@;
    emit_save_reg(v, out, Gpr::Rbx);
    proof {
        let m = match in2 {
            Val::Reg(r) => load_reg(r, 1) + alu_reg(o, is_shift(op), w),
            Val::Imm(i) => seq![X86Instr::Op2(o, Opnd::Reg(Gpr::Rbx, w), Opnd::I32(i))],
            Val::Imm64(_) => seq![],
        };
        assert(b =~= a + m);
        let ext = if narrow { sext32() } else { seq![] };
        assert(c =~= b + ext);
        assert(final(v)@ =~= start + alu_code(op, in1, in2, out, flags));
    }
}

fn lower_slt(v: &mut Vec<X86Instr>, in1: Register, in2: Val, out: Register, flags: u16)
    ensures
        final(v)@ == old(v)@ + slt_code(in1, in2, out, flags),
{
    let ghost start = v@;
    let r15 = Opnd::Reg(Gpr::R15, Width::W64);
    let ecx = Opnd::Reg(Gpr::Rcx, Width::W32);
    emit_load_reg(v, in1, 0);
    emit(v, X86Instr::Op1(Op1::Push, r15));
    emit(v, X86Instr::Op2(Op2::Mov, r15, Opnd::Reg(Gpr::Rbx, Width::W64)));
    emit(v, X86Instr::Op2(Op2::Xor, ecx, ecx));
    let ghost a = v@;
    match in2 {
        Val::Reg(r) => {
            emit_load_reg(v, r, 0);
            emit(v, X86Instr::Op2(Op2::Cmp, r15, Opnd::Reg(Gpr::Rbx, Width::W64)));
        },
        Val::Imm(i) => {
            emit(v, X86Instr::Op2(Op2::Cmp, r15, Opnd::I32(i)));
        },
        Val::Imm64(_) => {},
    }
    let ghost b = v@;
    let set = if flags == Flag::Signed { Op1::Setl } else { Op1::Setb };
    emit(v, X86Instr::Op1(set, Opnd::Reg(Gpr::Rcx, Width::Low8)));
    emit_save_reg(v, out, Gpr::Rcx);
    emit(v, X86Instr::Op1(Op1::Pop, r15));
    proof {
        let m = match in2 {
            Val::Reg(r) => load_reg(r, 0) + seq![X86Instr::Op2(Op2::Cmp, r64(Gpr::R15), r64(Gpr::Rbx))],
            Val::Imm(i) => seq![X86Instr::Op2(Op2::Cmp, r64(Gpr::R15), Opnd::I32(i))],
            Val::Imm64(_) => seq![],
        };
        assert(b =~= a + m);
        assert(final(v)@ =~= start + slt_code(in1, in2, out, flags));
    }
}

/// The jump taken to the fallthrough path when a branch with these flags is not taken
pub open spec fn branch_cond(flags: u16) -> Option<Cond> {
    if flags == 0b000101 {
        Some(Cond::Ne)
    } else if flags == 0b001001 {
        Some(Cond::E)
    } else if flags == 0b010001 {
        Some(Cond::Nl)
    } else if flags == 0b100001 {
        Some(Cond::Ng)
    } else if flags == 0b010101 {
        Some(Cond::Nle)
    } else if flags == 0b100101 {
        Some(Cond::Nge)
    } else if flags == 0b010010 {
        Some(Cond::Nb)
    } else if flags == 0b100010 {
        Some(Cond::Na)
    } else if flags == 0b010110 {
        Some(Cond::Nbe)
    } else if flags == 0b100110 {
        Some(Cond::Nae)
    } else {
        None
    }
}

/// Record in the comparison coverage map that byte `i` of the branch at `k` matched
pub open spec fn compare_cov_code(k: int, i: int, l: usize) -> Seq<X86Instr> {
    seq![
        mov(r64(Gpr::Rcx), at(MemSize::Any, Gpr::R8, 0x10)),
        mov(r64(Gpr::Rdx), Opnd::CmpCovBit(k as usize, i as usize)),
        X86Instr::Op2(Op2::Bts, at(MemSize::QWord, Gpr::Rcx, 0), r64(Gpr::Rdx)),
        X86Instr::Jcc(Cond::C, l),
        mov(r64(Gpr::Rdx), at(MemSize::Any, Gpr::R8, 0x18)),
        X86Instr::Op1(Op1::Inc, r64(Gpr::Rdx)),
        mov(at(MemSize::Any, Gpr::R8, 0x18), r64(Gpr::Rdx)),
        X86Instr::Label(l),
    ]
}

/// Compare the bytes of rax and rbx at bit offset `s`
pub open spec fn shifted_compare(s: u32) -> Seq<X86Instr> {
    seq![
        mov(r64(Gpr::Rcx), r64(Gpr::Rax)),
        mov(r64(Gpr::Rdx), r64(Gpr::Rbx)),
        X86Instr::Op2(Op2::Shr, r64(Gpr::Rcx), Opnd::U32(s)),
        X86Instr::Op2(Op2::Shr, r64(Gpr::Rdx), Opnd::U32(s)),
        X86Instr::Op2(Op2::And, r64(Gpr::Rcx), Opnd::I32(0xff)),
        X86Instr::Op2(Op2::And, r64(Gpr::Rdx), Opnd::I32(0xff)),
        X86Instr::Op2(Op2::Cmp, r64(Gpr::Rcx), r64(Gpr::Rdx)),
    ]
}

/// The first `n` byte comparisons of a branch with comparison coverage
pub open spec fn byte_checks(k: int, c: Cond, fall: usize, n: nat) -> Seq<X86Instr>
    decreases n,
{
    if n == 0 {
        seq![]
    } else {
        let i = n - 1;
        byte_checks(k, c, fall, (n - 1) as nat) + shifted_compare((i * 8) as u32) + seq![X86Instr::Jcc(c, fall)]
            + compare_cov_code(k, i, lbl(k, 5 + i))
    }
}

/// Code of a conditional branch to `t`
pub open spec fn branch_code(in1: Register, in2: Register, t: usize, flags: u16, k: int, opts: JitOptions) -> Seq<X86Instr> {
    let c = branch_cond(flags).unwrap();
    let fall = lbl(k, 4);
    seq![mov(r64(Gpr::Rax), slot(in1)), mov(r64(Gpr::Rbx), slot(in2))] + (if opts.compare_cov && flags == 0b000101 {
        byte_checks(k, c, fall, 8)
    } else {
        seq![X86Instr::Op2(Op2::Cmp, r64(Gpr::Rax), r64(Gpr::Rbx)), X86Instr::Jcc(c, fall)]
    }) + seq![
        mov(r64(Gpr::Rbx), at(MemSize::Any, Gpr::R15, t * 2)),
        X86Instr::Op1(Op1::Jmp, r64(Gpr::Rbx)),
        X86Instr::Label(fall),
        X86Instr::Nop,
    ]
}

/// Jump to the code of guest address `addr`: directly where it is compiled already (at
/// `known`), else through the lookup table, leaving the JIT where no code exists yet
pub open spec fn guest_jump(known: Option<usize>, addr: usize, l: usize) -> Seq<X86Instr> {
    match known {
        Some(j) => seq![mov(r64(Gpr::Rbx), Opnd::U64(j as u64)), X86Instr::Op1(Op1::Jmp, r64(Gpr::Rbx))],
        None => seq![
            mov(r64(Gpr::Rbx), at(MemSize::Any, Gpr::R15, addr * 2)),
            X86Instr::Op2(Op2::Test, r64(Gpr::Rbx), r64(Gpr::Rbx)),
            X86Instr::Jcc(Cond::Z, l),
            X86Instr::Op1(Op1::Jmp, r64(Gpr::Rbx)),
            X86Instr::Label(l),
        ] + exit_code(1, Opnd::U64(addr as u64)),
    }
}

/// Code of an indirect jump to the address in `in1` plus `off`
pub open spec fn jmp_off_code(in1: Register, off: i32, k: int) -> Seq<X86Instr> {
    let rbx = r64(Gpr::Rbx);
    let rcx = r64(Gpr::Rcx);
    let exit = lbl(k, 4);
    let fall = lbl(k, 5);
    load_reg(in1, 0) + seq![
        X86Instr::Op2(Op2::Add, rbx, Opnd::I32(off)),
        mov(rcx, Opnd::U64(MAX_GUEST_ADDR as u64)),
        X86Instr::Op2(Op2::Cmp, rbx, rcx),
        X86Instr::Jcc(Cond::B, fall),
    ] + exit_code(10, rbx) + seq![
        X86Instr::Label(fall),
        X86Instr::Op2(Op2::Shl, rbx, Opnd::U32(1)),
        mov(rcx, at_index(MemSize::Any, Gpr::R15, Gpr::Rbx, 1)),
        X86Instr::Op2(Op2::Test, rcx, rcx),
        X86Instr::Jcc(Cond::Z, exit),
        X86Instr::Op1(Op1::Jmp, rcx),
        X86Instr::Label(exit),
        X86Instr::Op2(Op2::Shr, rbx, Opnd::U32(1)),
    ] + exit_code(1, rbx)
}

/// Whether an x86 conditional jump with condition `c` is taken after `cmp` of `a` with `b`:
/// the "less"/"greater" conditions compare as signed numbers, the "below"/"above" ones as
/// unsigned numbers
pub open spec fn cond_after_compare(c: Cond, a: u64, b: u64) -> bool {
    let (x, y) = (signed64(a), signed64(b));
    match c {
        Cond::E | Cond::Z => a == b,
        Cond::Ne | Cond::Nz => a != b,
        Cond::Nl => x >= y,
        Cond::Ng => x <= y,
        Cond::Nle => x > y,
        Cond::Nge => x < y,
        Cond::B => a < b,
        Cond::Nb => a >= b,
        Cond::A => a > b,
        Cond::Na => a <= b,
        Cond::Nbe => a > b,
        Cond::Nae => a < b,
        _ => false,
    }
}

/// The compiled code of every conditional branch that the lifter makes leaves for the
/// fall-through path exactly when the branch's compare does not hold, and so exactly when the
/// RISC-V branch it was lifted from is not taken, for all register values
pub proof fn lemma_branch_code_falls_through(mode: u8, a: u64, b: u64)
    requires
        branch_flags(mode) is Some,
    ensures
        branch_cond(branch_flags(mode)->0) matches Some(c) && (cond_after_compare(c, a, b) <==> !compare_holds(
            branch_flags(mode)->0,
            a,
            b,
        )) && (cond_after_compare(c, a, b) <==> !riscv_branch_taken(mode, a, b)),
{
    assert(0x4u16 | 0x1u16 == 0x5u16 && 0x8u16 | 0x1u16 == 0x9u16 && 0x10u16 | 0x1u16 == 0x11u16 && 0x20u16
        | 0x1u16 | 0x4u16 == 0x25u16 && 0x10u16 | 0x2u16 == 0x12u16 && 0x20u16 | 0x2u16 | 0x4u16 == 0x26u16)
        by (bit_vector);
}

fn jump_cond(flags: u16) -> (r: Option<Cond>)
    ensures
        r == branch_cond(flags),
{
    if flags == 0b000101 {
        Some(Cond::Ne)
    } else if flags == 0b001001 {
        Some(Cond::E)
    } else if flags == 0b010001 {
        Some(Cond::Nl)
    } else if flags == 0b100001 {
        Some(Cond::Ng)
    } else if flags == 0b010101 {
        Some(Cond::Nle)
    } else if flags == 0b100101 {
        Some(Cond::Nge)
    } else if flags == 0b010010 {
        Some(Cond::Nb)
    } else if flags == 0b100010 {
        Some(Cond::Na)
    } else if flags == 0b010110 {
        Some(Cond::Nbe)
    } else if flags == 0b100110 {
        Some(Cond::Nae)
    } else {
        None
    }
}

fn emit_byte_check(v: &mut Vec<X86Instr>, k: usize, i: usize, c: Cond, fall: usize)
    requires
        i < 8,
        16 * k + 16 <= usize::MAX,
    ensures
        final(v)@ == old(v)@ + shifted_compare((i * 8) as u32) + seq![X86Instr::Jcc(c, fall)]
            + compare_cov_code(k as int, i as int, lbl(k as int, 5 + i)),
{
    let ghost start = v@;
    let rax = Opnd::Reg(Gpr::Rax, Width::W64);
    let rbx = Opnd::Reg(Gpr::Rbx, Width::W64);
    let rcx = Opnd::Reg(Gpr::Rcx, Width::W64);
    let rdx = Opnd::Reg(Gpr::Rdx, Width::W64);
    let sh = (i * 8) as u32;
    let l = 16 * k + 5 + i;
    v.push(X86Instr::Op2(Op2::Mov, rcx, rax));
    v.push(X86Instr::Op2(Op2::Mov, rdx, rbx));
    v.push(X86Instr::Op2(Op2::Shr, rcx, Opnd::U32(sh)));
    v.push(X86Instr::Op2(Op2::Shr, rdx, Opnd::U32(sh)));
    v.push(X86Instr::Op2(Op2::And, rcx, Opnd::I32(0xff)));
    v.push(X86Instr::Op2(Op2::And, rdx, Opnd::I32(0xff)));
    v.push(X86Instr::Op2(Op2::Cmp, rcx, rdx));
    v.push(X86Instr::Jcc(c, fall));
    v.push(X86Instr::Op2(Op2::Mov, rcx, Opnd::Mem(Mem {
        size: MemSize::Any, base: Gpr::R8, index: None, scale: 1, disp: 0x10 })));
    v.push(X86Instr::Op2(Op2::Mov, rdx, Opnd::CmpCovBit(k, i)));
    v.push(X86Instr::Op2(Op2::Bts, Opnd::Mem(Mem {
        size: MemSize::QWord, base: Gpr::Rcx, index: None, scale: 1, disp: 0 }), rdx));
    v.push(X86Instr::Jcc(Cond::C, l));
    v.push(X86Instr::Op2(Op2::Mov, rdx, Opnd::Mem(Mem {
        size: MemSize::Any, base: Gpr::R8, index: None, scale: 1, disp: 0x18 })));
    v.push(X86Instr::Op1(Op1::Inc, rdx));
    v.push(X86Instr::Op2(Op2::Mov, Opnd::Mem(Mem {
        size: MemSize::Any, base: Gpr::R8, index: None, scale: 1, disp: 0x18 }), rdx));
    v.push(X86Instr::Label(l));
    assert(final(v)@ =~= start + shifted_compare((i * 8) as u32) + seq![X86Instr::Jcc(c, fall)]
        + compare_cov_code(k as int, i as int, lbl(k as int, 5 + i)));
}

#[verifier::rlimit(40)]
fn lower_branch(v: &mut Vec<X86Instr>, in1: Register, in2: Register, t: usize, flags: u16, k: usize, opts: &JitOptions)
    requires
        branch_cond(flags) is Some,
        t * 2 <= usize::MAX,
        16 * k + 16 <= usize::MAX,
    ensures
        final(v)@ == old(v)@ + branch_code(in1, in2, t, flags, k as int, *opts),
{
    let ghost start = v@;
    let c = jump_cond(flags).unwrap();
    let fall = 16 * k + 4;
    let rax = Opnd::Reg(Gpr::Rax, Width::W64);
    let rbx = Opnd::Reg(Gpr::Rbx, Width::W64);
    v.push(X86Instr::Op2(Op2::Mov, rax, reg_slot(in1)));
    v.push(X86Instr::Op2(Op2::Mov, rbx, reg_slot(in2)));
    let ghost a = v@;
    if opts.compare_cov && flags == 0b000101 {
        let mut i: usize = 0;
        while i < 8
            invariant
                i <= 8,
                16 * k + 16 <= usize::MAX,
                v@ == a + byte_checks(k as int, c, fall, i as nat),
            decreases 8 - i,
        {
            emit_byte_check(v, k, i, c, fall);
            i = i + 1;
        }
    } else {
        v.push(X86Instr::Op2(Op2::Cmp, rax, rbx));
        v.push(X86Instr::Jcc(c, fall));
    }
    let ghost b = v@;
    v.push(X86Instr::Op2(Op2::Mov, rbx, Opnd::Mem(Mem {
        size: MemSize::Any, base: Gpr::R15, index: None, scale: 1, disp: (t * 2) as i64 })));
    v.push(X86Instr::Op1(Op1::Jmp, rbx));
    v.push(X86Instr::Label(fall));
    v.push(X86Instr::Nop);
    proof {
        let mid = if opts.compare_cov && flags == 0b000101 {
            byte_checks(k as int, c, fall, 8)
        } else {
            seq![X86Instr::Op2(Op2::Cmp, r64(Gpr::Rax), r64(Gpr::Rbx)), X86Instr::Jcc(c, fall)]
        };
        assert(a =~= start + seq![mov(r64(Gpr::Rax), slot(in1)), mov(r64(Gpr::Rbx), slot(in2))]);
        assert(b =~= a + mid);
        assert(final(v)@ =~= start + branch_code(in1, in2, t, flags, k as int, *opts));
    }
}

/// Code that jumps to the guest address `addr`, given where it is compiled if it is
pub fn guest_jump_code(known: Option<usize>, addr: usize, l: usize) -> (r: Vec<X86Instr>)
    requires
        addr * 2 <= usize::MAX,
    ensures
        r@ == guest_jump(known, addr, l),
{
    let rbx = Opnd::Reg(Gpr::Rbx, Width::W64);
    let mut v: Vec<X86Instr> = Vec::new();
    match known {
        Some(j) => {
            v.push(X86Instr::Op2(Op2::Mov, rbx, Opnd::U64(j as u64)));
            v.push(X86Instr::Op1(Op1::Jmp, rbx));
        },
        None => {
            v.push(X86Instr::Op2(Op2::Mov, rbx, Opnd::Mem(Mem {
                size: MemSize::Any, base: Gpr::R15, index: None, scale: 1, disp: (addr * 2) as i64 })));
            v.push(X86Instr::Op2(Op2::Test, rbx, rbx));
            v.push(X86Instr::Jcc(Cond::Z, l));
            v.push(X86Instr::Op1(Op1::Jmp, rbx));
            v.push(X86Instr::Label(l));
            emit_exit(&mut v, 1, Opnd::U64(addr as u64));
        },
    }
    assert(v@ =~= guest_jump(known, addr, l));
    v
}

fn lower_jmp_off(v: &mut Vec<X86Instr>, in1: Register, off: i32, k: usize)
    requires
        16 * k + 16 <= usize::MAX,
    ensures
        final(v)@ == old(v)@ + jmp_off_code(in1, off, k as int),
{
    let ghost start = v@;
    let rbx = Opnd::Reg(Gpr::Rbx, Width::W64);
    let rcx = Opnd::Reg(Gpr::Rcx, Width::W64);
    let exit = 16 * k + 4;
    let fall = 16 * k + 5;
    emit_load_reg(v, in1, 0);
    v.push(X86Instr::Op2(Op2::Add, rbx, Opnd::I32(off)));
    v.push(X86Instr::Op2(Op2::Mov, rcx, Opnd::U64(MAX_GUEST_ADDR as u64)));
    v.push(X86Instr::Op2(Op2::Cmp, rbx, rcx));
    v.push(X86Instr::Jcc(Cond::B, fall));
    emit_exit(v, 10, rbx);
    let ghost a = v@;
    v.push(X86Instr::Label(fall));
    v.push(X86Instr::Op2(Op2::Shl, rbx, Opnd::U32(1)));
    v.push(X86Instr::Op2(Op2::Mov, rcx, Opnd::Mem(Mem {
        size: MemSize::Any, base: Gpr::R15, index: Some(Gpr::Rbx), scale: 1, disp: 0 })));
    v.push(X86Instr::Op2(Op2::Test, rcx, rcx));
    v.push(X86Instr::Jcc(Cond::Z, exit));
    v.push(X86Instr::Op1(Op1::Jmp, rcx));
    v.push(X86Instr::Label(exit));
    v.push(X86Instr::Op2(Op2::Shr, rbx, Opnd::U32(1)));
    let ghost b = v@;
    emit_exit(v, 1, rbx);
    proof {
        assert(b =~= a + seq![
            X86Instr::Label(fall),
            X86Instr::Op2(Op2::Shl, r64(Gpr::Rbx), Opnd::U32(1)),
            mov(r64(Gpr::Rcx), at_index(MemSize::Any, Gpr::R15, Gpr::Rbx, 1)),
            X86Instr::Op2(Op2::Test, r64(Gpr::Rcx), r64(Gpr::Rcx)),
            X86Instr::Jcc(Cond::Z, exit),
            X86Instr::Op1(Op1::Jmp, r64(Gpr::Rcx)),
            X86Instr::Label(exit),
            X86Instr::Op2(Op2::Shr, r64(Gpr::Rbx), Opnd::U32(1)),
        ]);
        assert(final(v)@ =~= start + jmp_off_code(in1, off, k as int));
    }
}

/// A byte of ones in each of the `n` lowest bytes
pub open spec fn byte_ones(n: int) -> u64 {
    if n == 1 {
        0x01
    } else if n == 2 {
        0x0101
    } else if n == 4 {
        0x0101_0101
    } else {
        0x0101_0101_0101_0101
    }
}

/// The permission bits repeated in each of the `size` bytes of an access
pub open spec fn perm_mask(perm: u8, size: int) -> u64 {
    (perm * byte_ones(size)) as u64
}

/// Part of a register accessed by an access of `size` bytes
pub open spec fn width_of(size: int) -> Width {
    if size == 1 {
        Width::Low8
    } else if size == 2 {
        Width::W16
    } else if size == 4 {
        Width::W32
    } else {
        Width::W64
    }
}

/// The immediate an IR value holds, as a 32-bit displacement
pub open spec fn imm32(v: Val) -> i32 {
    match v {
        Val::Imm(i) => i,
        Val::Imm64(i) => i as i32,
        Val::Reg(_) => 0,
    }
}

/// Size annotation, byte count, instruction and destination width of a load with these flags
pub open spec fn load_kind(flags: u16) -> Option<(MemSize, int, Op2, Width)> {
    if flags == 0b0001000001 {
        Some((MemSize::Byte, 1, Op2::Movsx, Width::W64))
    } else if flags == 0b0010000001 {
        Some((MemSize::Word, 2, Op2::Movsx, Width::W64))
    } else if flags == 0b0100000001 {
        Some((MemSize::DWord, 4, Op2::Movsxd, Width::W64))
    } else if flags == 0b0001000010 {
        Some((MemSize::Byte, 1, Op2::Movzx, Width::W64))
    } else if flags == 0b0010000010 {
        Some((MemSize::Word, 2, Op2::Movzx, Width::W64))
    } else if flags == 0b0100000010 {
        Some((MemSize::DWord, 4, Op2::Mov, Width::W32))
    } else if flags == 0b1000000000 {
        Some((MemSize::QWord, 8, Op2::Mov, Width::W64))
    } else {
        None
    }
}

/// Size annotation and byte count of a store with these flags
pub open spec fn store_kind(flags: u16) -> Option<(MemSize, int)> {
    if flags == Flag::Byte {
        Some((MemSize::Byte, 1))
    } else if flags == Flag::Word {
        Some((MemSize::Word, 2))
    } else if flags == Flag::DWord {
        Some((MemSize::DWord, 4))
    } else if flags == Flag::QWord {
        Some((MemSize::QWord, 8))
    } else {
        None
    }
}

/// Compute the guest address in rbx and leave the JIT if it lies outside guest memory
pub open spec fn address_code(in1: Register, off: i32, mem_size: usize, fault: usize) -> Seq<X86Instr> {
    load_reg(in1, 0) + seq![
        X86Instr::Op2(Op2::Add, r64(Gpr::Rbx), Opnd::I32(off)),
        X86Instr::Op2(Op2::Cmp, r64(Gpr::Rbx), Opnd::I32((mem_size - 8) as i32)),
        X86Instr::Jcc(Cond::A, fault),
    ]
}

/// Check the permission bits in rax against `perm` for `size` bytes; on failure leave the JIT
/// with `code` at `pc`
pub open spec fn perm_check(no_checks: bool, perm: u8, size: int, fall: usize, code: u64, pc: usize) -> Seq<X86Instr> {
    if no_checks {
        seq![X86Instr::JmpLabel(fall)]
    } else {
        seq![
            mov(r64(Gpr::Rcx), Opnd::U64(perm_mask(perm, size))),
            X86Instr::Op2(Op2::And, r64(Gpr::Rax), r64(Gpr::Rcx)),
            X86Instr::Op2(Op2::Cmp, r64(Gpr::Rax), r64(Gpr::Rcx)),
            X86Instr::Jcc(Cond::E, fall),
        ] + exit_code(code, Opnd::U64(pc as u64))
    }
}

/// Code of a load
pub open spec fn load_code(in1: Register, off: i32, out: Register, flags: u16, k: int, pc: usize, mem_size: usize, opts: JitOptions) -> Seq<X86Instr> {
    let (hint, size, op, w) = load_kind(flags).unwrap();
    let fall = lbl(k, 4);
    let fault = lbl(k, 5);
    address_code(in1, off, mem_size, fault) + seq![
        mov(r64(Gpr::Rax), at_index(hint, Gpr::Rbx, Gpr::R12, 1)),
    ] + perm_check(opts.no_perm_checks, Perms::READ, size, fall, 8, pc) + seq![X86Instr::Label(fault)]
        + exit_code(10, Opnd::U64(pc as u64)) + seq![X86Instr::Label(fall)] + load_reg(out, 1) + seq![
        X86Instr::Op2(op, Opnd::Reg(Gpr::Rcx, w), at_index(hint, Gpr::Rbx, Gpr::R13, 1)),
    ] + save_reg(out, Gpr::Rcx)
}

/// Read the permission bits of a store of `size` bytes
pub open spec fn store_perm_read(hint: MemSize, size: int) -> X86Instr {
    if size == 1 || size == 2 {
        X86Instr::Op2(Op2::Movzx, r32(Gpr::Rax), at_index(hint, Gpr::Rbx, Gpr::R12, 1))
    } else if size == 4 {
        mov(r32(Gpr::Rax), at_index(hint, Gpr::Rbx, Gpr::R12, 1))
    } else {
        mov(r64(Gpr::Rax), at_index(hint, Gpr::Rbx, Gpr::R12, 1))
    }
}

/// Mark the page of the address in rbx dirty unless it is already
pub open spec fn dirty_code(fall: usize, skip: usize) -> Seq<X86Instr> {
    seq![
        X86Instr::Label(fall),
        mov(r64(Gpr::Rcx), r64(Gpr::Rbx)),
        X86Instr::Op2(Op2::Shr, r64(Gpr::Rcx), Opnd::I32(12)),
        X86Instr::Op2(Op2::Bts, at(MemSize::QWord, Gpr::R11, 0), r64(Gpr::Rcx)),
        X86Instr::Jcc(Cond::C, skip),
        mov(at_index(MemSize::QWord, Gpr::R10, Gpr::R9, 8), r64(Gpr::Rcx)),
        X86Instr::Op2(Op2::Add, r64(Gpr::R9), Opnd::I32(1)),
        X86Instr::Label(skip),
    ]
}

/// Write `size` bytes of guest register `in2` to the address in rbx
pub open spec fn store_write(in2: Register, hint: MemSize, size: int) -> Seq<X86Instr> {
    seq![
        mov(r64(Gpr::Rcx), at(hint, Gpr::R14, in2.id() * 8)),
        mov(at_index(hint, Gpr::R13, Gpr::Rbx, 1), Opnd::Reg(Gpr::Rcx, width_of(size))),
    ]
}

/// Code of a store
pub open spec fn store_code(in1: Register, in2: Register, off: i32, flags: u16, k: int, pc: usize, mem_size: usize, opts: JitOptions) -> Seq<X86Instr> {
    let (hint, size) = store_kind(flags).unwrap();
    let fall = lbl(k, 4);
    let skip = lbl(k, 5);
    let fault = lbl(k, 6);
    address_code(in1, off, mem_size, fault) + seq![store_perm_read(hint, size)]
        + perm_check(opts.no_perm_checks, Perms::WRITE, size, fall, 9, pc) + seq![X86Instr::Label(fault)]
        + exit_code(10, Opnd::U64(pc as u64)) + dirty_code(fall, skip) + store_write(in2, hint, size)
}

fn ones(n: u64) -> (r: u64)
    ensures
        r == byte_ones(n as int),
{
    if n == 1 {
        0x01
    } else if n == 2 {
        0x0101
    } else if n == 4 {
        0x0101_0101
    } else {
        0x0101_0101_0101_0101
    }
}

fn mask_of(perm: u8, size: u64) -> (r: u64)
    ensures
        r == perm_mask(perm, size as int),
{
    let o = ones(size);
    assert(perm * o <= 0xff * 0x0101_0101_0101_0101u64) by (nonlinear_arith)
        requires
            perm <= 0xff,
            o <= 0x0101_0101_0101_0101u64,
    ;
    (perm as u64) * o
}

fn width_for(size: u64) -> (w: Width)
    ensures
        w == width_of(size as int),
{
    if size == 1 {
        Width::Low8
    } else if size == 2 {
        Width::W16
    } else if size == 4 {
        Width::W32
    } else {
        Width::W64
    }
}

fn imm_of(v: Val) -> (r: i32)
    ensures
        r == imm32(v),
{
    match v {
        Val::Imm(i) => i,
        Val::Imm64(i) => i as i32,
        Val::Reg(_) => 0,
    }
}

fn kind_of_load(flags: u16) -> (r: Option<(MemSize, u64, Op2, Width)>)
    ensures
        r is Some <==> load_kind(flags) is Some,
        r matches Some((h, n, o, w)) ==> load_kind(flags) == Some((h, n as int, o, w)),
{
    if flags == 0b0001000001 {
        Some((MemSize::Byte, 1, Op2::Movsx, Width::W64))
    } else if flags == 0b0010000001 {
        Some((MemSize::Word, 2, Op2::Movsx, Width::W64))
    } else if flags == 0b0100000001 {
        Some((MemSize::DWord, 4, Op2::Movsxd, Width::W64))
    } else if flags == 0b0001000010 {
        Some((MemSize::Byte, 1, Op2::Movzx, Width::W64))
    } else if flags == 0b0010000010 {
        Some((MemSize::Word, 2, Op2::Movzx, Width::W64))
    } else if flags == 0b0100000010 {
        Some((MemSize::DWord, 4, Op2::Mov, Width::W32))
    } else if flags == 0b1000000000 {
        Some((MemSize::QWord, 8, Op2::Mov, Width::W64))
    } else {
        None
    }
}

fn kind_of_store(flags: u16) -> (r: Option<(MemSize, u64)>)
    ensures
        r is Some <==> store_kind(flags) is Some,
        r matches Some((h, n)) ==> store_kind(flags) == Some((h, n as int)),
{
    if flags == Flag::Byte {
        Some((MemSize::Byte, 1))
    } else if flags == Flag::Word {
        Some((MemSize::Word, 2))
    } else if flags == Flag::DWord {
        Some((MemSize::DWord, 4))
    } else if flags == Flag::QWord {
        Some((MemSize::QWord, 8))
    } else {
        None
    }
}

fn emit_address(v: &mut Vec<X86Instr>, in1: Register, off: i32, mem_size: usize, fault: usize)
    requires
        mem_size >= 8,
    ensures
        final(v)@ == old(v)@ + address_code(in1, off, mem_size, fault),
{
    let ghost start = v@;
    let rbx = Opnd::Reg(Gpr::Rbx, Width::W64);
    emit_load_reg(v, in1, 0);
    v.push(X86Instr::Op2(Op2::Add, rbx, Opnd::I32(off)));
    v.push(X86Instr::Op2(Op2::Cmp, rbx, Opnd::I32((mem_size - 8) as i32)));
    v.push(X86Instr::Jcc(Cond::A, fault));
    assert(final(v)@ =~= start + address_code(in1, off, mem_size, fault));
}

fn emit_perm_check(v: &mut Vec<X86Instr>, no_checks: bool, perm: u8, size: u64, fall: usize, code: u64, pc: usize)
    ensures
        final(v)@ == old(v)@ + perm_check(no_checks, perm, size as int, fall, code, pc),
{
    let ghost start = v@;
    let rax = Opnd::Reg(Gpr::Rax, Width::W64);
    let rcx = Opnd::Reg(Gpr::Rcx, Width::W64);
    if no_checks {
        v.push(X86Instr::JmpLabel(fall));
    } else {
        v.push(X86Instr::Op2(Op2::Mov, rcx, Opnd::U64(mask_of(perm, size))));
        v.push(X86Instr::Op2(Op2::And, rax, rcx));
        v.push(X86Instr::Op2(Op2::Cmp, rax, rcx));
        v.push(X86Instr::Jcc(Cond::E, fall));
        emit_exit(v, code, Opnd::U64(pc as u64));
    }
    assert(final(v)@ =~= start + perm_check(no_checks, perm, size as int, fall, code, pc));
}

fn lower_load(v: &mut Vec<X86Instr>, in1: Register, off: i32, out: Register, flags: u16, k: usize, pc: usize,
    mem_size: usize, opts: &JitOptions)
    requires
        load_kind(flags) is Some,
        mem_size >= 8,
        16 * k + 16 <= usize::MAX,
    ensures
        final(v)@ == old(v)@ + load_code(in1, off, out, flags, k as int, pc, mem_size, *opts),
{
    let ghost start = v@;
    let (hint, size, op, w) = kind_of_load(flags).unwrap();
    let fall = 16 * k + 4;
    let fault = 16 * k + 5;
    emit_address(v, in1, off, mem_size, fault);
    v.push(X86Instr::Op2(Op2::Mov, Opnd::Reg(Gpr::Rax, Width::W64), Opnd::Mem(Mem {
        size: hint, base: Gpr::Rbx, index: Some(Gpr::R12), scale: 1, disp: 0 })));
    let ghost a = v@;
    emit_perm_check(v, opts.no_perm_checks, Perms::READ, size, fall, 8, pc);
    v.push(X86Instr::Label(fault));
    emit_exit(v, 10, Opnd::U64(pc as u64));
    v.push(X86Instr::Label(fall));
    let ghost b = v@;
    emit_load_reg(v, out, 1);
    v.push(X86Instr::Op2(op, Opnd::Reg(Gpr::Rcx, w), Opnd::Mem(Mem {
        size: hint, base: Gpr::Rbx, index: Some(Gpr::R13), scale: 1, disp: 0 })));
    emit_save_reg(v, out, Gpr::Rcx);
    proof {
        assert(b =~= a + perm_check(opts.no_perm_checks, Perms::READ, size as int, fall, 8, pc)
            + seq![X86Instr::Label(fault)] + exit_code(10, Opnd::U64(pc as u64)) + seq![X86Instr::Label(fall)]);
        assert(final(v)@ =~= start + load_code(in1, off, out, flags, k as int, pc, mem_size, *opts));
    }
}

fn lower_store(v: &mut Vec<X86Instr>, in1: Register, in2: Register, off: i32, flags: u16, k: usize, pc: usize,
    mem_size: usize, opts: &JitOptions)
    requires
        store_kind(flags) is Some,
        mem_size >= 8,
        16 * k + 16 <= usize::MAX,
    ensures
        final(v)@ == old(v)@ + store_code(in1, in2, off, flags, k as int, pc, mem_size, *opts),
{
    let ghost start = v@;
    let (hint, size) = kind_of_store(flags).unwrap();
    let fall = 16 * k + 4;
    let skip = 16 * k + 5;
    let fault = 16 * k + 6;
    let perm_mem = Opnd::Mem(Mem { size: hint, base: Gpr::Rbx, index: Some(Gpr::R12), scale: 1, disp: 0 });
    emit_address(v, in1, off, mem_size, fault);
    if size == 1 || size == 2 {
        v.push(X86Instr::Op2(Op2::Movzx, Opnd::Reg(Gpr::Rax, Width::W32), perm_mem));
    } else if size == 4 {
        v.push(X86Instr::Op2(Op2::Mov, Opnd::Reg(Gpr::Rax, Width::W32), perm_mem));
    } else {
        v.push(X86Instr::Op2(Op2::Mov, Opnd::Reg(Gpr::Rax, Width::W64), perm_mem));
    }
    let ghost a = v@;
    emit_perm_check(v, opts.no_perm_checks, Perms::WRITE, size, fall, 9, pc);
    v.push(X86Instr::Label(fault));
    emit_exit(v, 10, Opnd::U64(pc as u64));
    let ghost b = v@;
    emit_dirty(v, fall, skip);
    emit_store_write(v, in2, hint, size);
    proof {
        assert(a =~= start + address_code(in1, off, mem_size, fault) + seq![store_perm_read(hint, size as int)]);
        assert(b =~= a + perm_check(opts.no_perm_checks, Perms::WRITE, size as int, fall, 9, pc)
            + seq![X86Instr::Label(fault)] + exit_code(10, Opnd::U64(pc as u64)));
        assert(final(v)@ =~= start + store_code(in1, in2, off, flags, k as int, pc, mem_size, *opts));
    }
}

fn emit_dirty(v: &mut Vec<X86Instr>, fall: usize, skip: usize)
    ensures
        final(v)@ == old(v)@ + dirty_code(fall, skip),
{
    let ghost start = v@;
    let rcx = Opnd::Reg(Gpr::Rcx, Width::W64);
    v.push(X86Instr::Label(fall));
    v.push(X86Instr::Op2(Op2::Mov, rcx, Opnd::Reg(Gpr::Rbx, Width::W64)));
    v.push(X86Instr::Op2(Op2::Shr, rcx, Opnd::I32(12)));
    v.push(X86Instr::Op2(Op2::Bts, Opnd::Mem(Mem {
        size: MemSize::QWord, base: Gpr::R11, index: None, scale: 1, disp: 0 }), rcx));
    v.push(X86Instr::Jcc(Cond::C, skip));
    v.push(X86Instr::Op2(Op2::Mov, Opnd::Mem(Mem {
        size: MemSize::QWord, base: Gpr::R10, index: Some(Gpr::R9), scale: 8, disp: 0 }), rcx));
    v.push(X86Instr::Op2(Op2::Add, Opnd::Reg(Gpr::R9, Width::W64), Opnd::I32(1)));
    v.push(X86Instr::Label(skip));
    assert(final(v)@ =~= start + dirty_code(fall, skip));
}

fn emit_store_write(v: &mut Vec<X86Instr>, in2: Register, hint: MemSize, size: u64)
    ensures
        final(v)@ == old(v)@ + store_write(in2, hint, size as int),
{
    let ghost start = v@;
    let off2 = in2.get_offset();
    v.push(X86Instr::Op2(Op2::Mov, Opnd::Reg(Gpr::Rcx, Width::W64), Opnd::Mem(Mem {
        size: hint, base: Gpr::R14, index: None, scale: 1, disp: off2 as i64 })));
    v.push(X86Instr::Op2(Op2::Mov, Opnd::Mem(Mem {
        size: hint, base: Gpr::R13, index: Some(Gpr::Rbx), scale: 1, disp: 0 }), Opnd::Reg(Gpr::Rcx, width_for(size))));
    assert(final(v)@ =~= start + store_write(in2, hint, size as int));
}

/// An IR instruction as plain values: operation, inputs, output, flags and originating pc
pub type IrView = (Operation, Seq<Val>, Option<Register>, u16, Option<usize>);

/// The register an IR value names
pub open spec fn reg_in(v: Val) -> Register {
    match v {
        Val::Reg(r) => r,
        _ => Register::Zero,
    }
}

/// The body of an IR instruction can be compiled: its operands have the shape its operation
/// asks for
pub open spec fn body_ok(ins: IrView, mem_size: usize) -> bool {
    let (op, iv, out, flags, p) = ins;
    match op {
        Operation::Mov => out is Some && iv.len() >= 1 && (iv[0] is Reg || flags == Flag::Signed
            || flags == Flag::Unsigned),
        Operation::Branch(t, _) => iv.len() >= 2 && iv[0] is Reg && iv[1] is Reg && branch_cond(flags) is Some
            && t * 2 <= usize::MAX,
        Operation::Jmp(addr) => addr * 2 <= usize::MAX,
        Operation::JmpOff(_) => iv.len() >= 1 && iv[0] is Reg,
        Operation::Store => iv.len() >= 3 && iv[0] is Reg && iv[1] is Reg && !(iv[2] is Reg)
            && store_kind(flags) is Some && mem_size >= 8,
        Operation::Load => out is Some && iv.len() >= 2 && iv[0] is Reg && !(iv[1] is Reg)
            && load_kind(flags) is Some && mem_size >= 8,
        Operation::Add | Operation::Sub | Operation::Shl | Operation::Shr | Operation::Sar => out is Some
            && iv.len() >= 2 && iv[0] is Reg && !(iv[1] is Imm64) && (flags == Flag::DWord || flags
            == Flag::QWord),
        Operation::And | Operation::Or | Operation::Xor => out is Some && iv.len() >= 2 && iv[0] is Reg
            && !(iv[1] is Imm64),
        Operation::Slt => out is Some && iv.len() >= 2 && iv[0] is Reg && !(iv[1] is Imm64) && (flags
            == Flag::Signed || flags == Flag::Unsigned),
        Operation::Syscall => p is Some && p.unwrap() + 4 <= usize::MAX,
        _ => false,
    }
}

/// Code of the body of the IR instruction at position `k`; `pc` is the guest instruction it
/// belongs to
pub open spec fn body_code(ins: IrView, k: int, pc: usize, mem_size: usize, opts: JitOptions) -> Seq<X86Instr> {
    let (op, iv, out, flags, p) = ins;
    match op {
        Operation::Mov => mov_code(iv[0], out.unwrap()),
        Operation::Branch(t, _) => branch_code(reg_in(iv[0]), reg_in(iv[1]), t, flags, k, opts),
        Operation::Jmp(addr) => seq![X86Instr::GuestJump(addr, lbl(k, 4))],
        Operation::JmpOff(off) => jmp_off_code(reg_in(iv[0]), off, k),
        Operation::Store => store_code(reg_in(iv[0]), reg_in(iv[1]), imm32(iv[2]), flags, k, pc, mem_size, opts),
        Operation::Load => load_code(reg_in(iv[0]), imm32(iv[1]), out.unwrap(), flags, k, pc, mem_size, opts),
        Operation::Add | Operation::Sub | Operation::Shl | Operation::Shr | Operation::Sar | Operation::And
        | Operation::Or | Operation::Xor => alu_code(op, reg_in(iv[0]), iv[1], out.unwrap(), flags),
        Operation::Slt => slt_code(reg_in(iv[0]), iv[1], out.unwrap(), flags),
        Operation::Syscall => exit_code(2, Opnd::U64((p.unwrap() + 4) as u64)),
        _ => seq![],
    }
}

fn reg_of_val(v: Val) -> (r: Register)
    ensures
        r == reg_in(v),
{
    match v {
        Val::Reg(r) => r,
        _ => Register::Zero,
    }
}

fn lower_body(v: &mut Vec<X86Instr>, instr: &Instruction, k: usize, pc: usize, mem_size: usize, opts: &JitOptions)
    requires
        body_ok(ir_view(*instr), mem_size),
        16 * k + 16 <= usize::MAX,
    ensures
        final(v)@ == old(v)@ + body_code(ir_view(*instr), k as int, pc, mem_size, *opts),
{
    let flags = instr.flags;
    match instr.op {
        Operation::Mov => {
            lower_mov(v, instr.i_reg[0], instr.o_reg.unwrap());
        },
        Operation::Branch(t, _) => {
            lower_branch(v, reg_of_val(instr.i_reg[0]), reg_of_val(instr.i_reg[1]), t, flags, k, opts);
        },
        Operation::Jmp(addr) => {
            emit(v, X86Instr::GuestJump(addr, 16 * k + 4));
        },
        Operation::JmpOff(off) => {
            lower_jmp_off(v, reg_of_val(instr.i_reg[0]), off, k);
        },
        Operation::Store => {
            lower_store(v, reg_of_val(instr.i_reg[0]), reg_of_val(instr.i_reg[1]), imm_of(instr.i_reg[2]),
                flags, k, pc, mem_size, opts);
        },
        Operation::Load => {
            lower_load(v, reg_of_val(instr.i_reg[0]), imm_of(instr.i_reg[1]), instr.o_reg.unwrap(), flags, k,
                pc, mem_size, opts);
        },
        Operation::Add | Operation::Sub | Operation::Shl | Operation::Shr | Operation::Sar | Operation::And
        | Operation::Or | Operation::Xor => {
            lower_alu(v, instr.op, reg_of_val(instr.i_reg[0]), instr.i_reg[1], instr.o_reg.unwrap(), flags);
        },
        Operation::Slt => {
            lower_slt(v, reg_of_val(instr.i_reg[0]), instr.i_reg[1], instr.o_reg.unwrap(), flags);
        },
        Operation::Syscall => {
            let p = instr.pc.unwrap();
            emit_exit(v, 2, Opnd::U64((p + 4) as u64));
        },
        _ => {},
    }
}

/// Push all registers and the pc to the trace buffer
#[verifier::opaque]
pub open spec fn trace_code(pc: usize, l: usize) -> Seq<X86Instr> {
    let rax = r64(Gpr::Rax);
    let rbx = r64(Gpr::Rbx);
    let rcx = r64(Gpr::Rcx);
    let rdx = r64(Gpr::Rdx);
    seq![
        mov(rax, at(MemSize::Any, Gpr::R8, 0x20)),
        mov(rbx, at(MemSize::Any, Gpr::R8, 0x28)),
        X86Instr::Op2(Op2::Xor, rcx, rcx),
        X86Instr::Label(l),
        mov(rdx, at_index(MemSize::Any, Gpr::R14, Gpr::Rcx, 8)),
        mov(at_index(MemSize::Any, Gpr::Rax, Gpr::Rbx, 8), rdx),
        X86Instr::Op1(Op1::Inc, rcx),
        X86Instr::Op1(Op1::Inc, rbx),
        X86Instr::Op2(Op2::Cmp, rcx, Opnd::I32(32)),
        X86Instr::Jcc(Cond::Ne, l),
        X86Instr::Op1(Op1::Inc, rbx),
        mov(at(MemSize::Any, Gpr::R8, 0x28), rbx),
        X86Instr::Op1(Op1::Dec, rbx),
        mov(rcx, Opnd::U64(pc as u64)),
        X86Instr::Op2(Op2::Shl, rbx, Opnd::I32(3)),
        mov(at_index(MemSize::Any, Gpr::Rbx, Gpr::Rax, 1), rcx),
    ]
}

/// Look up the coverage byte of the hash in rbx; if it is new, set it and count it
pub open spec fn new_cov_code(l: usize) -> Seq<X86Instr> {
    let rax = r64(Gpr::Rax);
    let rcx = r64(Gpr::Rcx);
    seq![
        mov(rcx, at(MemSize::Any, Gpr::R8, 0x30)),
        X86Instr::Op2(Op2::Add, rcx, r64(Gpr::Rbx)),
        mov(rax, at(MemSize::Byte, Gpr::Rcx, 0)),
        X86Instr::Op2(Op2::Test, rax, rax),
        X86Instr::Jcc(Cond::Nz, l),
        mov(at(MemSize::Byte, Gpr::Rcx, 0), Opnd::I32(1)),
        mov(rax, at(MemSize::Any, Gpr::R8, 0x48)),
        X86Instr::Op2(Op2::Add, r32(Gpr::Rax), Opnd::I32(1)),
        mov(at(MemSize::Any, Gpr::R8, 0x48), rax),
        X86Instr::Label(l),
    ]
}

/// Block coverage: the hash is the low 24 bits of the pc
pub open spec fn block_cov_code(pc: usize, l: usize) -> Seq<X86Instr> {
    seq![mov(r64(Gpr::Rbx), Opnd::U64((pc as u64) & 0xffffff))] + new_cov_code(l)
}

/// Edge coverage: the hash mixes the pc with the previous block; it also feeds the input's
/// evolving hash
pub open spec fn edge_cov_code(pc: usize, l: usize) -> Seq<X86Instr> {
    let rax = r64(Gpr::Rax);
    let rbx = r64(Gpr::Rbx);
    seq![
        mov(rax, Opnd::U64((pc as u64) << 32u64)),
        mov(rbx, at(MemSize::Any, Gpr::R8, 0x40)),
        X86Instr::Op2(Op2::Add, rbx, rax),
        mov(rax, rbx),
        X86Instr::Op2(Op2::Shl, rax, Opnd::I32(13)),
        X86Instr::Op2(Op2::Xor, rbx, rax),
        mov(rax, rbx),
        X86Instr::Op2(Op2::Shr, rax, Opnd::I32(17)),
        X86Instr::Op2(Op2::Xor, rbx, rax),
        mov(rax, rbx),
        X86Instr::Op2(Op2::Shl, rax, Opnd::I32(43)),
        X86Instr::Op2(Op2::Xor, rbx, rax),
        X86Instr::Op2(Op2::And, rbx, Opnd::I32(0xffffff)),
        X86Instr::Op2(Op2::Xor, r32(Gpr::Rax), r32(Gpr::Rax)),
    ] + new_cov_code(l) + seq![
        mov(rax, at(MemSize::Any, Gpr::R8, 0x38)),
        X86Instr::Op2(Op2::Xor, rax, rbx),
        mov(at(MemSize::Any, Gpr::R8, 0x38), rax),
        mov(at(MemSize::DWord, Gpr::R8, 0x40), Opnd::U32(pc as u32)),
    ]
}

/// Coverage tracking at the start of a block
#[verifier::opaque]
pub open spec fn cov_code(pc: usize, l: usize, m: CovMethod) -> Seq<X86Instr> {
    match m {
        CovMethod::Block => block_cov_code(pc, l),
        CovMethod::Edge => edge_cov_code(pc, l),
        CovMethod::Disabled => seq![],
    }
}

/// Leave the JIT once the fuzz case has used up its instruction budget
#[verifier::opaque]
pub open spec fn timeout_code(l: usize) -> Seq<X86Instr> {
    seq![
        mov(r64(Gpr::Rcx), Opnd::TimeoutAddr),
        mov(r64(Gpr::Rcx), at(MemSize::Any, Gpr::Rcx, 0)),
        X86Instr::Op2(Op2::Cmp, r64(Gpr::Rcx), r64(Gpr::Rsi)),
        X86Instr::Jcc(Cond::A, l),
    ] + exit_code(7, Opnd::U64(0)) + seq![X86Instr::Label(l)]
}

/// Leave the JIT to take a snapshot, handing over where this code starts so that it can be
/// overwritten afterwards
#[verifier::opaque]
pub open spec fn snapshot_code(pc: usize, l: usize) -> Seq<X86Instr> {
    seq![
        mov(r64(Gpr::Rax), Opnd::U64(5)),
        mov(r64(Gpr::Rcx), Opnd::U64(pc as u64)),
        X86Instr::Call(l),
        X86Instr::Label(l),
        X86Instr::Op1(Op1::Pop, r64(Gpr::Rbx)),
        X86Instr::Op2(Op2::Sub, r64(Gpr::Rbx), Opnd::SnapshotOffset(pc)),
        mov(at(MemSize::Any, Gpr::R8, 0), r64(Gpr::Rbx)),
        X86Instr::Ret,
    ]
}

/// A snapshot is to be taken at `pc`
pub open spec fn snapshot_at(exits: Map<usize, ExitType>, pc: usize) -> bool {
    exits.contains_key(pc) && exits[pc] == ExitType::Snapshot
}

/// Code that starts the guest instruction at `pc`, the IR instruction at `k`
pub open spec fn prologue(pc: usize, k: int, leaders: Set<usize>, exits: Map<usize, ExitType>, opts: JitOptions) -> Seq<X86Instr> {
    seq![X86Instr::Mark(pc)] + (if opts.full_trace { trace_code(pc, lbl(k, 0)) } else { seq![] }) + (if leaders.contains(pc) {
        cov_code(pc, lbl(k, 1), opts.cov_method) + timeout_code(lbl(k, 2))
    } else {
        seq![]
    }) + (if snapshot_at(exits, pc) { snapshot_code(pc, lbl(k, 3)) } else { seq![] }) + seq![
        X86Instr::Op2(Op2::Add, r64(Gpr::Rsi), Opnd::I32(1)),
    ]
}

fn emit_trace(v: &mut Vec<X86Instr>, pc: usize, l: usize)
    ensures
        final(v)@ == old(v)@ + trace_code(pc, l),
{
    let ghost start = v@;
    let rax = Opnd::Reg(Gpr::Rax, Width::W64);
    let rbx = Opnd::Reg(Gpr::Rbx, Width::W64);
    let rcx = Opnd::Reg(Gpr::Rcx, Width::W64);
    let rdx = Opnd::Reg(Gpr::Rdx, Width::W64);
    v.push(X86Instr::Op2(Op2::Mov, rax, Opnd::Mem(Mem { size: MemSize::Any, base: Gpr::R8, index: None, scale: 1, disp: 0x20 })));
    v.push(X86Instr::Op2(Op2::Mov, rbx, Opnd::Mem(Mem { size: MemSize::Any, base: Gpr::R8, index: None, scale: 1, disp: 0x28 })));
    v.push(X86Instr::Op2(Op2::Xor, rcx, rcx));
    v.push(X86Instr::Label(l));
    v.push(X86Instr::Op2(Op2::Mov, rdx, Opnd::Mem(Mem { size: MemSize::Any, base: Gpr::R14, index: Some(Gpr::Rcx), scale: 8, disp: 0 })));
    v.push(X86Instr::Op2(Op2::Mov, Opnd::Mem(Mem { size: MemSize::Any, base: Gpr::Rax, index: Some(Gpr::Rbx), scale: 8, disp: 0 }), rdx));
    v.push(X86Instr::Op1(Op1::Inc, rcx));
    v.push(X86Instr::Op1(Op1::Inc, rbx));
    v.push(X86Instr::Op2(Op2::Cmp, rcx, Opnd::I32(32)));
    v.push(X86Instr::Jcc(Cond::Ne, l));
    v.push(X86Instr::Op1(Op1::Inc, rbx));
    v.push(X86Instr::Op2(Op2::Mov, Opnd::Mem(Mem { size: MemSize::Any, base: Gpr::R8, index: None, scale: 1, disp: 0x28 }), rbx));
    v.push(X86Instr::Op1(Op1::Dec, rbx));
    v.push(X86Instr::Op2(Op2::Mov, rcx, Opnd::U64(pc as u64)));
    v.push(X86Instr::Op2(Op2::Shl, rbx, Opnd::I32(3)));
    v.push(X86Instr::Op2(Op2::Mov, Opnd::Mem(Mem { size: MemSize::Any, base: Gpr::Rbx, index: Some(Gpr::Rax), scale: 1, disp: 0 }), rcx));
    reveal(trace_code);
    assert(final(v)@ =~= start + trace_code(pc, l));
}

fn emit_new_cov(v: &mut Vec<X86Instr>, l: usize)
    ensures
        final(v)@ == old(v)@ + new_cov_code(l),
{
    let ghost start = v@;
    let rax = Opnd::Reg(Gpr::Rax, Width::W64);
    let rcx = Opnd::Reg(Gpr::Rcx, Width::W64);
    let counter = Opnd::Mem(Mem { size: MemSize::Any, base: Gpr::R8, index: None, scale: 1, disp: 0x48 });
    let byte = Opnd::Mem(Mem { size: MemSize::Byte, base: Gpr::Rcx, index: None, scale: 1, disp: 0 });
    v.push(X86Instr::Op2(Op2::Mov, rcx, Opnd::Mem(Mem { size: MemSize::Any, base: Gpr::R8, index: None, scale: 1, disp: 0x30 })));
    v.push(X86Instr::Op2(Op2::Add, rcx, Opnd::Reg(Gpr::Rbx, Width::W64)));
    v.push(X86Instr::Op2(Op2::Mov, rax, byte));
    v.push(X86Instr::Op2(Op2::Test, rax, rax));
    v.push(X86Instr::Jcc(Cond::Nz, l));
    v.push(X86Instr::Op2(Op2::Mov, byte, Opnd::I32(1)));
    v.push(X86Instr::Op2(Op2::Mov, rax, counter));
    v.push(X86Instr::Op2(Op2::Add, Opnd::Reg(Gpr::Rax, Width::W32), Opnd::I32(1)));
    v.push(X86Instr::Op2(Op2::Mov, counter, rax));
    v.push(X86Instr::Label(l));
    assert(final(v)@ =~= start + new_cov_code(l));
}

fn emit_cov(v: &mut Vec<X86Instr>, pc: usize, l: usize, m: CovMethod)
    ensures
        final(v)@ == old(v)@ + cov_code(pc, l, m),
{
    reveal(cov_code);
    let ghost start = v@;
    let rax = Opnd::Reg(Gpr::Rax, Width::W64);
    let rbx = Opnd::Reg(Gpr::Rbx, Width::W64);
    match m {
        CovMethod::Block => {
            v.push(X86Instr::Op2(Op2::Mov, rbx, Opnd::U64((pc as u64) & 0xffffff)));
            emit_new_cov(v, l);
            assert(final(v)@ =~= start + cov_code(pc, l, m));
        },
        CovMethod::Edge => {
            v.push(X86Instr::Op2(Op2::Mov, rax, Opnd::U64((pc as u64) << 32u64)));
            v.push(X86Instr::Op2(Op2::Mov, rbx, Opnd::Mem(Mem { size: MemSize::Any, base: Gpr::R8, index: None, scale: 1, disp: 0x40 })));
            v.push(X86Instr::Op2(Op2::Add, rbx, rax));
            v.push(X86Instr::Op2(Op2::Mov, rax, rbx));
            v.push(X86Instr::Op2(Op2::Shl, rax, Opnd::I32(13)));
            v.push(X86Instr::Op2(Op2::Xor, rbx, rax));
            v.push(X86Instr::Op2(Op2::Mov, rax, rbx));
            v.push(X86Instr::Op2(Op2::Shr, rax, Opnd::I32(17)));
            v.push(X86Instr::Op2(Op2::Xor, rbx, rax));
            v.push(X86Instr::Op2(Op2::Mov, rax, rbx));
            v.push(X86Instr::Op2(Op2::Shl, rax, Opnd::I32(43)));
            v.push(X86Instr::Op2(Op2::Xor, rbx, rax));
            v.push(X86Instr::Op2(Op2::And, rbx, Opnd::I32(0xffffff)));
            v.push(X86Instr::Op2(Op2::Xor, Opnd::Reg(Gpr::Rax, Width::W32), Opnd::Reg(Gpr::Rax, Width::W32)));
            let ghost a = v@;
            emit_new_cov(v, l);
            let ghost b = v@;
            let hash = Opnd::Mem(Mem { size: MemSize::Any, base: Gpr::R8, index: None, scale: 1, disp: 0x38 });
            v.push(X86Instr::Op2(Op2::Mov, rax, hash));
            v.push(X86Instr::Op2(Op2::Xor, rax, rbx));
            v.push(X86Instr::Op2(Op2::Mov, hash, rax));
            v.push(X86Instr::Op2(Op2::Mov, Opnd::Mem(Mem { size: MemSize::DWord, base: Gpr::R8, index: None, scale: 1, disp: 0x40 }), Opnd::U32(pc as u32)));
            assert(b == a + new_cov_code(l));
            assert(final(v)@ =~= start + cov_code(pc, l, m));
        },
        CovMethod::Disabled => {
            assert(final(v)@ =~= start + cov_code(pc, l, m));
        },
    }
}

fn emit_timeout(v: &mut Vec<X86Instr>, l: usize)
    ensures
        final(v)@ == old(v)@ + timeout_code(l),
{
    let ghost start = v@;
    let rcx = Opnd::Reg(Gpr::Rcx, Width::W64);
    v.push(X86Instr::Op2(Op2::Mov, rcx, Opnd::TimeoutAddr));
    v.push(X86Instr::Op2(Op2::Mov, rcx, Opnd::Mem(Mem { size: MemSize::Any, base: Gpr::Rcx, index: None, scale: 1, disp: 0 })));
    v.push(X86Instr::Op2(Op2::Cmp, rcx, Opnd::Reg(Gpr::Rsi, Width::W64)));
    v.push(X86Instr::Jcc(Cond::A, l));
    emit_exit(v, 7, Opnd::U64(0));
    v.push(X86Instr::Label(l));
    reveal(timeout_code);
    assert(final(v)@ =~= start + timeout_code(l));
}

fn emit_snapshot(v: &mut Vec<X86Instr>, pc: usize, l: usize)
    ensures
        final(v)@ == old(v)@ + snapshot_code(pc, l),
{
    let ghost start = v@;
    let rbx = Opnd::Reg(Gpr::Rbx, Width::W64);
    v.push(X86Instr::Op2(Op2::Mov, Opnd::Reg(Gpr::Rax, Width::W64), Opnd::U64(5)));
    v.push(X86Instr::Op2(Op2::Mov, Opnd::Reg(Gpr::Rcx, Width::W64), Opnd::U64(pc as u64)));
    v.push(X86Instr::Call(l));
    v.push(X86Instr::Label(l));
    v.push(X86Instr::Op1(Op1::Pop, rbx));
    v.push(X86Instr::Op2(Op2::Sub, rbx, Opnd::SnapshotOffset(pc)));
    v.push(X86Instr::Op2(Op2::Mov, Opnd::Mem(Mem { size: MemSize::Any, base: Gpr::R8, index: None, scale: 1, disp: 0 }), rbx));
    v.push(X86Instr::Ret);
    reveal(snapshot_code);
    assert(final(v)@ =~= start + snapshot_code(pc, l));
}

#[verifier::rlimit(40)]
fn emit_prologue(v: &mut Vec<X86Instr>, pc: usize, k: usize, leaders: &HashMap<usize, usize>,
    exit_conds: &mut HashMap<usize, ExitType>, opts: &JitOptions)
    requires
        16 * k + 16 <= usize::MAX,
    ensures
        final(v)@ == old(v)@ + prologue(pc, k as int, leaders@.dom(), old(exit_conds)@, *opts),
        final(exit_conds)@ == if snapshot_at(old(exit_conds)@, pc) {
            old(exit_conds)@.remove(pc)
        } else {
            old(exit_conds)@
        },
{
    let ghost start = v@;
    emit(v, X86Instr::Mark(pc));
    if opts.full_trace {
        emit_trace(v, pc, 16 * k);
    }
    let ghost a = v@;
    if leaders.contains_key(&pc) {
        emit_cov(v, pc, 16 * k + 1, opts.cov_method);
        emit_timeout(v, 16 * k + 2);
    }
    let ghost b = v@;
    let snap = match exit_conds.get(&pc) {
        Some(t) => *t == ExitType::Snapshot,
        None => false,
    };
    if snap {
        exit_conds.remove(&pc);
        emit_snapshot(v, pc, 16 * k + 3);
    }
    let ghost c = v@;
    emit(v, X86Instr::Op2(Op2::Add, Opnd::Reg(Gpr::Rsi, Width::W64), Opnd::I32(1)));
    proof {
        let tr = if opts.full_trace { trace_code(pc, lbl(k as int, 0)) } else { seq![] };
        assert(a =~= start + seq![X86Instr::Mark(pc)] + tr);
        let lc = if leaders@.dom().contains(pc) {
            cov_code(pc, lbl(k as int, 1), opts.cov_method) + timeout_code(lbl(k as int, 2))
        } else {
            seq![]
        };
        assert(b =~= a + lc);
        let sc = if snapshot_at(old(exit_conds)@, pc) { snapshot_code(pc, lbl(k as int, 3)) } else { seq![] };
        assert(c =~= b + sc);
        assert(final(v)@ =~= start + prologue(pc, k as int, leaders@.dom(), old(exit_conds)@, *opts));
    }
}

/// The guest instruction an IR instruction belongs to, given that of the one before
pub open spec fn instr_pc(cur: usize, ins: IrView) -> usize {
    match ins.4 {
        Some(p) => p,
        None => cur,
    }
}

/// The pending exit conditions after compiling an instruction: a snapshot is taken only once
pub open spec fn exits_after(exits: Map<usize, ExitType>, ins: IrView) -> Map<usize, ExitType> {
    match ins.4 {
        Some(p) => if snapshot_at(exits, p) {
            exits.remove(p)
        } else {
            exits
        },
        None => exits,
    }
}

/// Current guest pc and pending exit conditions after the first `n` instructions
pub open spec fn state_at(instrs: Seq<IrView>, n: nat, init_pc: usize, exits0: Map<usize, ExitType>) -> (usize, Map<usize, ExitType>)
    decreases n,
{
    if n == 0 {
        (init_pc, exits0)
    } else {
        let (p, e) = state_at(instrs, (n - 1) as nat, init_pc, exits0);
        let ins = instrs[n - 1];
        (instr_pc(p, ins), exits_after(e, ins))
    }
}

/// Code of the IR instruction at position `k`
pub open spec fn instr_code(
    ins: IrView,
    k: int,
    cur_pc: usize,
    exits: Map<usize, ExitType>,
    leaders: Set<usize>,
    mem_size: usize,
    opts: JitOptions,
) -> Seq<X86Instr> {
    (match ins.4 {
        Some(p) => prologue(p, k, leaders, exits, opts),
        None => seq![],
    }) + body_code(ins, k, instr_pc(cur_pc, ins), mem_size, opts)
}

/// Code of the first `n` IR instructions
pub open spec fn code_upto(
    instrs: Seq<IrView>,
    n: nat,
    init_pc: usize,
    exits0: Map<usize, ExitType>,
    leaders: Set<usize>,
    mem_size: usize,
    opts: JitOptions,
) -> Seq<X86Instr>
    decreases n,
{
    if n == 0 {
        seq![]
    } else {
        let (p, e) = state_at(instrs, (n - 1) as nat, init_pc, exits0);
        code_upto(instrs, (n - 1) as nat, init_pc, exits0, leaders, mem_size, opts) + instr_code(
            instrs[n - 1],
            n - 1,
            p,
            e,
            leaders,
            mem_size,
            opts,
        )
    }
}

/// An IR instruction can be compiled: its body can, and the only exit condition at its pc,
/// if any, is a snapshot
pub open spec fn instr_ok(ins: IrView, exits0: Map<usize, ExitType>, mem_size: usize) -> bool {
    &&& body_ok(ins, mem_size)
    &&& match ins.4 {
        Some(p) => exits0.contains_key(p) ==> exits0[p] == ExitType::Snapshot,
        None => true,
    }
}

/// The function's first instruction names its address
pub open spec fn entry_pc(instrs: Seq<IrView>) -> usize {
    instrs[0].4.unwrap()
}

/// The code is that of a hook or of a hand-written library function, not the guest's own
pub open spec fn replaced(instrs: Seq<IrView>, hooked: bool, lib: Map<usize, LibFuncs>) -> bool {
    hooked || lib.contains_key(entry_pc(instrs))
}

/// The function can be compiled
pub open spec fn compilable(
    instrs: Seq<IrView>,
    hooked: bool,
    lib: Map<usize, LibFuncs>,
    exits0: Map<usize, ExitType>,
    mem_size: usize,
) -> bool {
    &&& instrs.len() > 0
    &&& instrs[0].4 is Some
    &&& replaced(instrs, hooked, lib) || (16 * instrs.len() + 16 <= usize::MAX && forall|k: int|
        0 <= k < instrs.len() ==> instr_ok(#[trigger] instrs[k], exits0, mem_size))
}

/// The code compiled for a function: a jump out of the JIT to the hook, the library
/// function's hand-written code, or the code of each of its IR instructions in order
pub open spec fn compiled(
    instrs: Seq<IrView>,
    hooked: bool,
    lib: Map<usize, LibFuncs>,
    leaders: Set<usize>,
    exits0: Map<usize, ExitType>,
    mem_size: usize,
    opts: JitOptions,
) -> Seq<X86Instr> {
    let init = entry_pc(instrs);
    if hooked {
        exit_code(3, Opnd::U64(init as u64))
    } else if lib.contains_key(init) {
        lib_code(lib[init])
    } else {
        code_upto(instrs, instrs.len(), init, exits0, leaders, mem_size, opts)
    }
}

/// The exit conditions left pending once the function is compiled
pub open spec fn exits_left(
    instrs: Seq<IrView>,
    hooked: bool,
    lib: Map<usize, LibFuncs>,
    exits0: Map<usize, ExitType>,
) -> Map<usize, ExitType> {
    if replaced(instrs, hooked, lib) {
        exits0
    } else {
        state_at(instrs, instrs.len(), entry_pc(instrs), exits0).1
    }
}

/// Compile the function in `irgraph` to x86 code. `hooked` says whether its address is
/// hooked; `custom_lib` lists the library functions replaced by hand-written code. A snapshot
/// exit condition is consumed when its code is compiled.
pub fn compile(
    irgraph: &IRGraph,
    hooked: bool,
    custom_lib: &HashMap<usize, LibFuncs>,
    inputs: &CompileInputs,
    exit_conds: &mut HashMap<usize, ExitType>,
    opts: &JitOptions,
) -> (r: Vec<X86Instr>)
    requires
        compilable(ir_views(irgraph.instrs@), hooked, custom_lib@, old(exit_conds)@, inputs.mem_size),
    ensures
        r@ == compiled(ir_views(irgraph.instrs@), hooked, custom_lib@, inputs.leaders@.dom(), old(exit_conds)@,
            inputs.mem_size, *opts),
        final(exit_conds)@ == exits_left(ir_views(irgraph.instrs@), hooked, custom_lib@, old(exit_conds)@),
{
    let ghost instrs = ir_views(irgraph.instrs@);
    let ghost exits0 = exit_conds@;
    assert(instrs[0] == ir_view(irgraph.instrs@[0]));
    let init_pc = irgraph.instrs[0].pc.unwrap();
    if hooked {
        let mut v: Vec<X86Instr> = Vec::new();
        emit_exit(&mut v, 3, Opnd::U64(init_pc as u64));
        assert(v@ =~= exit_code(3, Opnd::U64(init_pc as u64)));
        return v;
    }
    if let Some(f) = custom_lib.get(&init_pc) {
        return compile_lib(*f);
    }
    let n = irgraph.instrs.len();
    let mut v: Vec<X86Instr> = Vec::new();
    let mut pc = init_pc;
    let mut k: usize = 0;
    while k < n
        invariant
            n == irgraph.instrs@.len(),
            instrs == ir_views(irgraph.instrs@),
            k <= n,
            16 * n + 16 <= usize::MAX,
            forall|j: int| 0 <= j < n ==> instr_ok(#[trigger] instrs[j], exits0, inputs.mem_size),
            v@ == code_upto(instrs, k as nat, init_pc, exits0, inputs.leaders@.dom(), inputs.mem_size, *opts),
            (pc, exit_conds@) == state_at(instrs, k as nat, init_pc, exits0),
        decreases n - k,
    {
        let instr = &irgraph.instrs[k];
        assert(instrs[k as int] == ir_view(*instr));
        assert(instr_ok(instrs[k as int], exits0, inputs.mem_size));
        lower_instr(&mut v, instr, k, &mut pc, &inputs.leaders, exit_conds, inputs.mem_size, opts);
        k = k + 1;
    }
    assert(instrs.len() == n);
    v
}

fn lower_instr(
    v: &mut Vec<X86Instr>,
    instr: &Instruction,
    k: usize,
    pc: &mut usize,
    leaders: &HashMap<usize, usize>,
    exit_conds: &mut HashMap<usize, ExitType>,
    mem_size: usize,
    opts: &JitOptions,
)
    requires
        body_ok(ir_view(*instr), mem_size),
        16 * k + 16 <= usize::MAX,
    ensures
        final(v)@ == old(v)@ + instr_code(ir_view(*instr), k as int, *old(pc), old(exit_conds)@, leaders@.dom(),
            mem_size, *opts),
        *final(pc) == instr_pc(*old(pc), ir_view(*instr)),
        final(exit_conds)@ == exits_after(old(exit_conds)@, ir_view(*instr)),
{
    let ghost before = v@;
    if let Some(p) = instr.pc {
        *pc = p;
        emit_prologue(v, p, k, leaders, exit_conds, opts);
    }
    let ghost mid = v@;
    lower_body(v, instr, k, *pc, mem_size, opts);
    proof {
        let ins = ir_view(*instr);
        let pro = match ins.4 {
            Some(p) => prologue(p, k as int, leaders@.dom(), old(exit_conds)@, *opts),
            None => seq![],
        };
        assert(mid == before + pro);
        assert(final(v)@ =~= before + instr_code(ins, k as int, *old(pc), old(exit_conds)@, leaders@.dom(), mem_size,
            *opts));
    }
}

proof fn lemma_code_prefix(
    instrs: Seq<IrView>,
    m: nat,
    n: nat,
    init_pc: usize,
    exits0: Map<usize, ExitType>,
    leaders: Set<usize>,
    mem_size: usize,
    opts: JitOptions,
)
    requires
        m <= n,
    ensures
        code_upto(instrs, m, init_pc, exits0, leaders, mem_size, opts).len() <= code_upto(
            instrs,
            n,
            init_pc,
            exits0,
            leaders,
            mem_size,
            opts,
        ).len(),
        code_upto(instrs, n, init_pc, exits0, leaders, mem_size, opts).subrange(
            0,
            code_upto(instrs, m, init_pc, exits0, leaders, mem_size, opts).len() as int,
        ) == code_upto(instrs, m, init_pc, exits0, leaders, mem_size, opts),
    decreases n,
{
    if m < n {
        lemma_code_prefix(instrs, m, (n - 1) as nat, init_pc, exits0, leaders, mem_size, opts);
        let a = code_upto(instrs, m, init_pc, exits0, leaders, mem_size, opts);
        let b = code_upto(instrs, (n - 1) as nat, init_pc, exits0, leaders, mem_size, opts);
        let c = code_upto(instrs, n, init_pc, exits0, leaders, mem_size, opts);
        assert(c.subrange(0, b.len() as int) =~= b);
        assert(c.subrange(0, a.len() as int) =~= b.subrange(0, a.len() as int));
    } else {
        let c = code_upto(instrs, n, init_pc, exits0, leaders, mem_size, opts);
        assert(c.subrange(0, c.len() as int) =~= c);
    }
}

/// Every guest instruction of a compiled function gets an entry in the lookup table: the code
/// of each IR instruction that starts a guest instruction begins with the mark of its pc.
pub proof fn lemma_every_pc_marked(
    instrs: Seq<IrView>,
    hooked: bool,
    lib: Map<usize, LibFuncs>,
    leaders: Set<usize>,
    exits0: Map<usize, ExitType>,
    mem_size: usize,
    opts: JitOptions,
    k: int,
)
    requires
        compilable(instrs, hooked, lib, exits0, mem_size),
        !replaced(instrs, hooked, lib),
        0 <= k < instrs.len(),
        instrs[k].4 is Some,
    ensures
        exists|i: int|
            0 <= i < compiled(instrs, hooked, lib, leaders, exits0, mem_size, opts).len() && #[trigger] compiled(
                instrs,
                hooked,
                lib,
                leaders,
                exits0,
                mem_size,
                opts,
            )[i] == X86Instr::Mark(instrs[k].4.unwrap()),
{
    let init = entry_pc(instrs);
    let code = compiled(instrs, hooked, lib, leaders, exits0, mem_size, opts);
    let before = code_upto(instrs, k as nat, init, exits0, leaders, mem_size, opts);
    let upto = code_upto(instrs, (k + 1) as nat, init, exits0, leaders, mem_size, opts);
    lemma_code_prefix(instrs, (k + 1) as nat, instrs.len(), init, exits0, leaders, mem_size, opts);
    let (p, e) = state_at(instrs, k as nat, init, exits0);
    let here = instr_code(instrs[k], k, p, e, leaders, mem_size, opts);
    assert(upto == before + here);
    assert(here[0] == X86Instr::Mark(instrs[k].4.unwrap()));
    let i = before.len() as int;
    assert(upto[i] == here[0]);
    assert(code.subrange(0, upto.len() as int)[i] == upto[i]);
    assert(code[i] == X86Instr::Mark(instrs[k].4.unwrap()));
}

fn is_reg(v: Val) -> (r: bool)
    ensures
        r == (v is Reg),
{
    matches!(v, Val::Reg(_))
}

fn is_imm64(v: Val) -> (r: bool)
    ensures
        r == (v is Imm64),
{
    matches!(v, Val::Imm64(_))
}

/// The body of the instruction can be compiled
pub fn body_is_ok(instr: &Instruction, mem_size: usize) -> (r: bool)
    ensures
        r == body_ok(ir_view(*instr), mem_size),
{
    let iv = &instr.i_reg;
    let n = iv.len();
    let flags = instr.flags;
    let has_out = instr.o_reg.is_some();
    match instr.op {
        Operation::Mov => has_out && n >= 1 && (is_reg(iv[0]) || flags == Flag::Signed || flags == Flag::Unsigned),
        Operation::Branch(t, _) => n >= 2 && is_reg(iv[0]) && is_reg(iv[1]) && jump_cond(flags).is_some()
            && t.checked_mul(2).is_some(),
        Operation::Jmp(addr) => addr.checked_mul(2).is_some(),
        Operation::JmpOff(_) => n >= 1 && is_reg(iv[0]),
        Operation::Store => n >= 3 && is_reg(iv[0]) && is_reg(iv[1]) && !is_reg(iv[2])
            && kind_of_store(flags).is_some() && mem_size >= 8,
        Operation::Load => has_out && n >= 2 && is_reg(iv[0]) && !is_reg(iv[1])
            && kind_of_load(flags).is_some() && mem_size >= 8,
        Operation::Add | Operation::Sub | Operation::Shl | Operation::Shr | Operation::Sar => has_out && n >= 2
            && is_reg(iv[0]) && !is_imm64(iv[1]) && (flags == Flag::DWord || flags == Flag::QWord),
        Operation::And | Operation::Or | Operation::Xor => has_out && n >= 2 && is_reg(iv[0]) && !is_imm64(iv[1]),
        Operation::Slt => has_out && n >= 2 && is_reg(iv[0]) && !is_imm64(iv[1]) && (flags == Flag::Signed
            || flags == Flag::Unsigned),
        Operation::Syscall => match instr.pc {
            Some(p) => p.checked_add(4).is_some(),
            None => false,
        },
        _ => false,
    }
}

/// The function can be compiled (see `compile`)
pub fn is_compilable(
    irgraph: &IRGraph,
    hooked: bool,
    custom_lib: &HashMap<usize, LibFuncs>,
    exit_conds: &HashMap<usize, ExitType>,
    mem_size: usize,
) -> (r: bool)
    ensures
        r == compilable(ir_views(irgraph.instrs@), hooked, custom_lib@, exit_conds@, mem_size),
{
    let ghost instrs = ir_views(irgraph.instrs@);
    let n = irgraph.instrs.len();
    if n == 0 {
        return false;
    }
    assert(instrs[0] == ir_view(irgraph.instrs@[0]));
    let init_pc = match irgraph.instrs[0].pc {
        Some(p) => p,
        None => {
            return false;
        },
    };
    if hooked || custom_lib.contains_key(&init_pc) {
        return true;
    }
    if n > (usize::MAX - 16) / 16 {
        assert(16 * n + 16 > usize::MAX) by (nonlinear_arith)
            requires
                n > (usize::MAX - 16) / 16,
        ;
        return false;
    }
    assert(16 * n + 16 <= usize::MAX) by (nonlinear_arith)
        requires
            n <= (usize::MAX - 16) / 16,
    ;
    let mut k: usize = 0;
    while k < n
        invariant
            n == irgraph.instrs@.len(),
            instrs == ir_views(irgraph.instrs@),
            k <= n,
            instrs[0].4 is Some,
            !replaced(instrs, hooked, custom_lib@),
            16 * n + 16 <= usize::MAX,
            forall|j: int| 0 <= j < k ==> instr_ok(#[trigger] instrs[j], exit_conds@, mem_size),
        decreases n - k,
    {
        let instr = &irgraph.instrs[k];
        assert(instrs[k as int] == ir_view(*instr));
        if !body_is_ok(instr, mem_size) {
            assert(!instr_ok(instrs[k as int], exit_conds@, mem_size));
            return false;
        }
        if let Some(p) = instr.pc {
            if let Some(t) = exit_conds.get(&p) {
                if *t != ExitType::Snapshot {
                    assert(!instr_ok(instrs[k as int], exit_conds@, mem_size));
                    return false;
                }
            }
        }
        assert(instr_ok(instrs[k as int], exit_conds@, mem_size));
        k = k + 1;
    }
    true
}

} // verus!
