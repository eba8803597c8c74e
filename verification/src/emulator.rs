use vstd::prelude::*;

use std::collections::{BTreeMap, HashMap};

use crate::elfparser::ProgramHeader;
use crate::irgraph::{IRGraph, Flag, Operation, Val, ir_views};
use crate::jit::{LibFuncs, ir_alu64};
use crate::riscv::{Instr, decode_instr, is_decodable, spec_decode};
use crate::mmu::{Perms, ByteConversions, first_lacking};
use crate::syscalls::{syscall, syscall_defined, syscall_effect, syscall_supported};
use crate::mmu::{Mmu, alloc_post, free_defined, free_post, load_defined, load_post, fork_post,
    reset_defined, reset_post};
pub use crate::registers::{Register, NUMREGS};

verus! {

broadcast use {
    vstd::std_specs::hash::group_hash_axioms,
    vstd::std_specs::btree::group_btree_axioms,
    vstd::laws_cmp::group_laws_cmp,
};

/// Various faults that can occur during program execution. These can be syscalls, bugs, or other
/// non-standard behaviors that require kernel involvement
#[derive(Hash, Clone, Copy, Debug, PartialEq, Eq)]
pub enum Fault {
    /// Syscall
    Syscall,
    /// An attempt was made to write to an address without Perms::WRITE set
    WriteFault(usize),
    /// An attempt was made to read from an address without the requested permissions
    ReadFault(usize),
    /// An attempt was made to execute an invalid instruction
    ExecFault(usize),
    /// A memory request went completely out of bounds
    OutOfBounds(usize),
    /// Some operation results in an integer overflow
    IntegerOverflow,
    /// A free was attempted on an address that does not hold a live allocation
    InvalidFree(usize),
    /// There is no more room to service new allocations
    OOM,
    /// Process called exit
    Exit,
    /// Snapshot taken for deterministic fuzzing
    Snapshot,
    /// Fuzz case needed too much time and timed out
    Timeout,
}

/// A fault that counts as a crash of the target: the kind of access and the address it failed
/// at
pub open spec fn crash_of(f: Fault) -> Option<(Seq<char>, usize)> {
    match f {
        Fault::ReadFault(v) => Some(("read"@, v)),
        Fault::WriteFault(v) => Some(("write"@, v)),
        Fault::ExecFault(v) => Some(("exec"@, v)),
        Fault::OutOfBounds(v) => Some(("oob"@, v)),
        _ => None,
    }
}

impl Fault {
    /// The fault is a crash of the target: the kind of access, as crash files name it, and the
    /// address it failed at
    pub fn crash_kind(&self) -> (r: Option<(&'static str, usize)>)
        ensures
            r is Some <==> crash_of(*self) is Some,
            r matches Some((k, v)) ==> crash_of(*self) == Some((k@, v)),
    {
        match self {
            Fault::ReadFault(v) => Some(("read", *v)),
            Fault::WriteFault(v) => Some(("write", *v)),
            Fault::ExecFault(v) => Some(("exec", *v)),
            Fault::OutOfBounds(v) => Some(("oob", *v)),
            _ => None,
        }
    }
}

/// Different types of exit-conditions for the fuzzer
#[derive(Debug, Copy, Clone, Eq, PartialEq, Structural)]
pub enum ExitType {
    /// Leave JIT to create snapshot at this address
    Snapshot,
    /// Leave JIT reporting success-case
    Success,
    /// Exit JIT as if exit() was called
    Exit,
}

/// Different types of files that the fuzzer supports
#[derive(Copy, Debug, Clone, Eq, PartialEq, Structural)]
pub enum FileType {
    /// STDIN (0)
    STDIN,
    /// STDOUT (1), basically ignored apart from debug-prints to console
    STDOUT,
    /// STDERR (2), basically ignored apart from debug-prints to console
    STDERR,
    /// The input we are fuzzing. It keeps its byte-backing in emulator.fuzz_input
    FUZZINPUT,
    /// A standard file that is not 0/1/2 or the input we are fuzzing
    OTHER,
    /// Invalid file
    INVALID,
}

/// Memory mapped file implementation
#[derive(Debug)]
pub struct File {
    /// Filetype of this file
    pub ftype: FileType,
    /// The byte-backing used by this file. Not required by 0/1/2, or the fuzzinput
    pub backing: Option<Vec<u8>>,
    /// Cursor is used by the fuzz-input and potential other files that aren't 0/1/2
    pub cursor: Option<usize>,
}

/// A file as plain values: its type, its backing bytes and its cursor.
pub open spec fn file_view(f: File) -> (FileType, Option<Seq<u8>>, Option<usize>) {
    (
        f.ftype,
        match f.backing {
            Some(b) => Some(b@),
            None => None,
        },
        f.cursor,
    )
}

/// The file descriptor table as plain values.
pub open spec fn files_view(fds: Seq<File>) -> Seq<(FileType, Option<Seq<u8>>, Option<usize>)> {
    fds.map_values(|f: File| file_view(f))
}

/// A freshly opened file of the given type: other files get an empty backing and a cursor at
/// the start, the fuzz input only a cursor, and the standard streams neither.
pub open spec fn fresh_file(ftype: FileType) -> (FileType, Option<Seq<u8>>, Option<usize>) {
    match ftype {
        FileType::OTHER => (ftype, Some(Seq::<u8>::empty()), Some(0usize)),
        FileType::FUZZINPUT => (ftype, None, Some(0usize)),
        _ => (ftype, None, None),
    }
}

impl File {
    /// Open a file of the given type
    pub fn new(ftype: FileType) -> (r: Self)
        ensures
            file_view(r) == fresh_file(ftype),
    {
        let (backing, cursor) = match ftype {
            FileType::OTHER => (Some(Vec::new()), Some(0)),
            FileType::FUZZINPUT => (None, Some(0)),
            _ => (None, None),
        };
        File { ftype, backing, cursor }
    }

    /// An exact copy of this file
    pub fn duplicate(&self) -> (r: Self)
        ensures
            file_view(r) == file_view(*self),
    {
        let backing = match &self.backing {
            Some(b) => Some(b.clone()),
            None => None,
        };
        proof {
            if self.backing is Some {
                assert(backing.unwrap()@ =~= self.backing.unwrap()@);
            }
        }
        File { ftype: self.ftype, backing, cursor: self.cursor }
    }
}

/// An exact copy of a file descriptor table
fn duplicate_files(fds: &Vec<File>) -> (r: Vec<File>)
    ensures
        files_view(r@) == files_view(fds@),
{
    let mut r: Vec<File> = Vec::new();
    let mut i: usize = 0;
    while i < fds.len()
        invariant
            i <= fds@.len(),
            r@.len() == i,
            files_view(r@) == files_view(fds@.subrange(0, i as int)),
        decreases fds@.len() - i,
    {
        let f = fds[i].duplicate();
        let ghost before = r@;
        r.push(f);
        assert forall|k: int| 0 <= k < r@.len() implies #[trigger] file_view(r@[k]) == file_view(
            fds@.subrange(0, i + 1)[k],
        ) by {
            if k < i {
                assert(r@[k] == before[k]);
                assert(files_view(before)[k] == files_view(fds@.subrange(0, i as int))[k]);
            }
        }
        assert(files_view(r@) =~= files_view(fds@.subrange(0, i + 1)));
        i = i + 1;
    }
    assert(fds@.subrange(0, fds@.len() as int) =~= fds@);
    r
}

/// Emulator that runs the actual code. Each thread gets its own emulator in which everything is
/// separate except the jit backing that all emulators share.
pub struct Emulator {
    /// Memory backing for the emulator, contains actual memory bytes and permissions
    pub memory: Mmu,

    /// The register-state of this emulator
    pub regs: [usize; 33],

    /// Addresses at which the JIT jumps to precompiled code for a library function
    pub custom_lib: HashMap<usize, LibFuncs>,

    /// List of file descriptors that the process can use for syscalls
    pub fd_list: Vec<File>,

    /// Mapping between function address and function size and name
    pub functions: HashMap<usize, (usize, String)>,

    /// The fuzz input that is in use by the current case
    pub fuzz_input: Vec<u8>,

    /// Map of exit conditions that would cause the fuzzer to prematurely exit
    pub exit_conds: HashMap<usize, ExitType>,

    /// JIT-backing-address at which the injected code for the snapshot is located
    pub snapshot_addr: usize,

    /// If a fuzz case reaches this amount of instructions it will be manually terminated
    pub timeout: u64,
}

/// What the run loop does next after the JIT returned to it
#[derive(Debug, Clone, Copy, PartialEq, Eq)]
pub enum JitExit {
    /// Look up (or compile) the code at the new pc and enter the JIT again
    Reenter,
    /// Run the hook registered for this address, then enter the JIT again
    CallHook(usize),
    /// The fuzz case ends with this fault
    Stop(Fault),
}

/// The exit codes that the JIT reports: next block (1), syscall (2), hook (3), snapshot (5),
/// timeout (7), read fault (8), write fault (9), out-of-bounds access (10)
pub open spec fn exit_known(code: usize) -> bool {
    code == 1 || code == 2 || code == 3 || code == 5 || (7 <= code && code <= 10)
}

/// What the run loop does for a JIT exit with the given code and reentry pc; for a syscall, the
/// exit syscall stops the case and every other one continues it
pub open spec fn exit_action(emu: Emulator, code: usize, reentry_pc: usize) -> JitExit {
    if code == 1 {
        JitExit::Reenter
    } else if code == 2 {
        if emu.reg(Register::A7) == 93 {
            JitExit::Stop(Fault::Exit)
        } else {
            JitExit::Reenter
        }
    } else if code == 3 {
        JitExit::CallHook(reentry_pc)
    } else if code == 5 {
        JitExit::Stop(Fault::Snapshot)
    } else if code == 7 {
        JitExit::Stop(Fault::Timeout)
    } else if code == 8 {
        JitExit::Stop(Fault::ReadFault(reentry_pc))
    } else if code == 9 {
        JitExit::Stop(Fault::WriteFault(reentry_pc))
    } else {
        JitExit::Stop(Fault::OutOfBounds(reentry_pc))
    }
}

/// The three standard streams, as a new process has them.
pub open spec fn std_files() -> Seq<(FileType, Option<Seq<u8>>, Option<usize>)> {
    seq![fresh_file(FileType::STDIN), fresh_file(FileType::STDOUT), fresh_file(FileType::STDERR)]
}

/// The value the register file holds for `reg`: the zero register always reads as 0.
pub open spec fn reg_value(regs: Seq<usize>, reg: Register) -> usize {
    if reg == Register::Zero {
        0
    } else {
        regs[reg.id()]
    }
}

// ------------------------------------------------------------------------------------------------
// Lifting RISC-V instructions into the intermediate representation
// ------------------------------------------------------------------------------------------------

/// An IR instruction as plain values, before it is tagged with the pc it came from
pub type IrOp = (Operation, Seq<Val>, Option<Register>, u16);

/// An IR instruction as plain values, with the pc it came from
pub type IrTagged = (Operation, Seq<Val>, Option<Register>, u16, Option<usize>);

/// Flags of the compare that a conditional branch of the given kind (funct3) performs
pub open spec fn branch_flags(mode: u8) -> Option<u16> {
    if mode == 0 {
        Some(Flag::Equal | Flag::Signed)
    } else if mode == 1 {
        Some(Flag::NEqual | Flag::Signed)
    } else if mode == 4 {
        Some(Flag::Less | Flag::Signed)
    } else if mode == 5 {
        Some(Flag::Greater | Flag::Signed | Flag::Equal)
    } else if mode == 6 {
        Some(Flag::Less | Flag::Unsigned)
    } else if mode == 7 {
        Some(Flag::Greater | Flag::Unsigned | Flag::Equal)
    } else {
        None
    }
}

/// A 64-bit register value read as a signed (two's complement) number
pub open spec fn signed64(x: u64) -> int {
    if x < 0x8000_0000_0000_0000 {
        x as int
    } else {
        x - 0x1_0000_0000_0000_0000
    }
}

/// The flag `bit` (a single bit) is set in `flags`
pub open spec fn flag_set(flags: u16, bit: u16) -> bool {
    (flags as int / bit as int) % 2 == 1
}

/// Whether the compare that branch flags describe holds between `a` and `b`: the operands are
/// read as signed numbers where `Signed` is set and as unsigned ones otherwise, and the compare
/// holds where one of the relations whose flag is set (`Equal`, `NEqual`, `Less`, `Greater`)
/// holds
pub open spec fn compare_holds(flags: u16, a: u64, b: u64) -> bool {
    let x = if flag_set(flags, Flag::Signed) { signed64(a) } else { a as int };
    let y = if flag_set(flags, Flag::Signed) { signed64(b) } else { b as int };
    ||| flag_set(flags, Flag::Equal) && x == y
    ||| flag_set(flags, Flag::NEqual) && x != y
    ||| flag_set(flags, Flag::Less) && x < y
    ||| flag_set(flags, Flag::Greater) && x > y
}

/// Whether a RISC-V conditional branch with funct3 `mode` is taken when rs1 holds `a` and rs2
/// holds `b` (RV64I: beq, bne, blt, bge, bltu, bgeu)
pub open spec fn riscv_branch_taken(mode: u8, a: u64, b: u64) -> bool {
    if mode == 0 {
        a == b
    } else if mode == 1 {
        a != b
    } else if mode == 4 {
        signed64(a) < signed64(b)
    } else if mode == 5 {
        signed64(a) >= signed64(b)
    } else if mode == 6 {
        a < b
    } else if mode == 7 {
        a >= b
    } else {
        false
    }
}

/// A conditional branch of RISC-V lifts to one IR branch to `pc + imm` (taken) or `pc + 4`
/// whose compare holds exactly when the RISC-V branch is taken, for all register values; the
/// funct3 values that name no branch lift to nothing
pub proof fn lemma_lifted_branch_taken_as_riscv(
    pc: usize,
    rs1: Register,
    rs2: Register,
    imm: i32,
    mode: u8,
    a: u64,
    b: u64,
)
    ensures
        branch_ops(pc, rs1, rs2, imm, mode) is Some <==> (mode == 0 || mode == 1 || 4 <= mode <= 7),
        branch_ops(pc, rs1, rs2, imm, mode) matches Some(ops) ==> {
            &&& ops.len() == 1
            &&& ops[0].0 == Operation::Branch(pc.wrapping_add(imm as i64 as usize), pc.wrapping_add(4))
            &&& ops[0].1 == seq![Val::Reg(rs1), Val::Reg(rs2)]
            &&& (compare_holds(ops[0].3, a, b) <==> riscv_branch_taken(mode, a, b))
        },
{
    assert(0x4u16 | 0x1u16 == 0x5u16 && 0x8u16 | 0x1u16 == 0x9u16 && 0x10u16 | 0x1u16 == 0x11u16 && 0x20u16
        | 0x1u16 | 0x4u16 == 0x25u16 && 0x10u16 | 0x2u16 == 0x12u16 && 0x20u16 | 0x2u16 | 0x4u16 == 0x26u16)
        by (bit_vector);
}

/// Width and signedness of a load of the given kind (funct3)
pub open spec fn load_flags(mode: u8) -> Option<u16> {
    if mode == 0 {
        Some(Flag::Byte | Flag::Signed)
    } else if mode == 1 {
        Some(Flag::Word | Flag::Signed)
    } else if mode == 2 {
        Some(Flag::DWord | Flag::Signed)
    } else if mode == 4 {
        Some(Flag::Byte | Flag::Unsigned)
    } else if mode == 5 {
        Some(Flag::Word | Flag::Unsigned)
    } else if mode == 6 {
        Some(Flag::DWord | Flag::Unsigned)
    } else if mode == 3 {
        Some(Flag::QWord)
    } else {
        None
    }
}

/// Width of a store of the given kind (funct3)
pub open spec fn store_flags(mode: u8) -> Option<u16> {
    if mode == 0 {
        Some(Flag::Byte)
    } else if mode == 1 {
        Some(Flag::Word)
    } else if mode == 2 {
        Some(Flag::DWord)
    } else if mode == 3 {
        Some(Flag::QWord)
    } else {
        None
    }
}

/// Writing the return address of a jump at `pc` into `rd`, unless `rd` is the zero register
pub open spec fn link_ops(rd: Register, pc: usize) -> Seq<IrOp> {
    if rd != Register::Zero {
        seq![(Operation::Mov, seq![Val::Imm64(pc.wrapping_add(4) as i64)], Some(rd), Flag::Unsigned)]
    } else {
        Seq::empty()
    }
}

/// A conditional branch at `pc`: to `pc + imm` when the compare holds, else to `pc + 4`
pub open spec fn branch_ops(pc: usize, rs1: Register, rs2: Register, imm: i32, mode: u8) -> Option<Seq<IrOp>> {
    match branch_flags(mode) {
        Some(f) => Some(seq![(
            Operation::Branch(pc.wrapping_add(imm as i64 as usize), pc.wrapping_add(4)),
            seq![Val::Reg(rs1), Val::Reg(rs2)],
            None,
            f,
        )]),
        None => None,
    }
}

/// A load of `rd` from `rs1 + imm`
pub open spec fn load_ops(rd: Register, rs1: Register, imm: i32, mode: u8) -> Option<Seq<IrOp>> {
    match load_flags(mode) {
        Some(f) => Some(seq![(Operation::Load, seq![Val::Reg(rs1), Val::Imm(imm)], Some(rd), f)]),
        None => None,
    }
}

/// A store of `rs2` to `rs1 + imm`
pub open spec fn store_ops(rs1: Register, rs2: Register, imm: i32, mode: u8) -> Option<Seq<IrOp>> {
    match store_flags(mode) {
        Some(f) => Some(seq![(Operation::Store, seq![Val::Reg(rs1), Val::Reg(rs2), Val::Imm(imm)], None, f)]),
        None => None,
    }
}

/// `rd = rs1 <o> imm`
pub open spec fn imm_op(o: Operation, rd: Register, rs1: Register, imm: i32, f: u16) -> Option<Seq<IrOp>> {
    Some(seq![(o, seq![Val::Reg(rs1), Val::Imm(imm)], Some(rd), f)])
}

/// `rd = rs1 <o> rs2`
pub open spec fn reg_op(o: Operation, rd: Register, rs1: Register, rs2: Register, f: u16) -> Option<Seq<IrOp>> {
    Some(seq![(o, seq![Val::Reg(rs1), Val::Reg(rs2)], Some(rd), f)])
}

/// The IR that the lifter emits for the instruction at `pc`; `None` for the instructions it does
/// not support (multiplication and division, fences, breakpoints) and for malformed kinds.
pub open spec fn ir_ops(pc: usize, instr: Instr) -> Option<Seq<IrOp>> {
    match instr {
        Instr::Lui { rd, imm } => Some(seq![(Operation::Mov, seq![Val::Imm(imm)], Some(rd), Flag::Signed)]),
        Instr::Auipc { rd, imm } => Some(seq![(
            Operation::Mov,
            seq![Val::Imm64((imm as i64 as u64).wrapping_add(pc as u64) as i64)],
            Some(rd),
            Flag::Unsigned,
        )]),
        Instr::Jal { rd, imm } => Some(link_ops(rd, pc).push(
            (Operation::Jmp(pc.wrapping_add(imm as i64 as usize)), Seq::empty(), None, Flag::NoFlag),
        )),
        Instr::Jalr { rd, rs1, imm } => Some(link_ops(rd, pc).push(
            (Operation::JmpOff(imm), seq![Val::Reg(rs1)], None, Flag::NoFlag),
        )),
        Instr::Beq { rs1, rs2, imm, mode } => branch_ops(pc, rs1, rs2, imm, mode),
        Instr::Bne { rs1, rs2, imm, mode } => branch_ops(pc, rs1, rs2, imm, mode),
        Instr::Blt { rs1, rs2, imm, mode } => branch_ops(pc, rs1, rs2, imm, mode),
        Instr::Bge { rs1, rs2, imm, mode } => branch_ops(pc, rs1, rs2, imm, mode),
        Instr::Bltu { rs1, rs2, imm, mode } => branch_ops(pc, rs1, rs2, imm, mode),
        Instr::Bgeu { rs1, rs2, imm, mode } => branch_ops(pc, rs1, rs2, imm, mode),
        Instr::Lb { rd, rs1, imm, mode } => load_ops(rd, rs1, imm, mode),
        Instr::Lh { rd, rs1, imm, mode } => load_ops(rd, rs1, imm, mode),
        Instr::Lw { rd, rs1, imm, mode } => load_ops(rd, rs1, imm, mode),
        Instr::Lbu { rd, rs1, imm, mode } => load_ops(rd, rs1, imm, mode),
        Instr::Lhu { rd, rs1, imm, mode } => load_ops(rd, rs1, imm, mode),
        Instr::Lwu { rd, rs1, imm, mode } => load_ops(rd, rs1, imm, mode),
        Instr::Ld { rd, rs1, imm, mode } => load_ops(rd, rs1, imm, mode),
        Instr::Sb { rs1, rs2, imm, mode } => store_ops(rs1, rs2, imm, mode),
        Instr::Sh { rs1, rs2, imm, mode } => store_ops(rs1, rs2, imm, mode),
        Instr::Sw { rs1, rs2, imm, mode } => store_ops(rs1, rs2, imm, mode),
        Instr::Sd { rs1, rs2, imm, mode } => store_ops(rs1, rs2, imm, mode),
        Instr::Sltiu { rd, rs1, imm } => imm_op(Operation::Slt, rd, rs1, imm, Flag::Unsigned),
        Instr::Slti { rd, rs1, imm } => imm_op(Operation::Slt, rd, rs1, imm, Flag::Signed),
        Instr::Addi { rd, rs1, imm } => imm_op(Operation::Add, rd, rs1, imm, Flag::QWord),
        Instr::Slli { rd, rs1, imm } => imm_op(Operation::Shl, rd, rs1, imm, Flag::QWord),
        Instr::Srli { rd, rs1, imm } => imm_op(Operation::Shr, rd, rs1, imm, Flag::QWord),
        Instr::Srai { rd, rs1, imm } => imm_op(Operation::Sar, rd, rs1, imm, Flag::QWord),
        Instr::Addiw { rd, rs1, imm } => imm_op(Operation::Add, rd, rs1, imm, Flag::DWord),
        Instr::Slliw { rd, rs1, imm } => imm_op(Operation::Shl, rd, rs1, imm, Flag::DWord),
        Instr::Srliw { rd, rs1, imm } => imm_op(Operation::Shr, rd, rs1, imm, Flag::DWord),
        Instr::Sraiw { rd, rs1, imm } => imm_op(Operation::Sar, rd, rs1, imm, Flag::DWord),
        Instr::Xori { rd, rs1, imm } => imm_op(Operation::Xor, rd, rs1, imm, Flag::NoFlag),
        Instr::Andi { rd, rs1, imm } => imm_op(Operation::And, rd, rs1, imm, Flag::NoFlag),
        Instr::Ori { rd, rs1, imm } => imm_op(Operation::Or, rd, rs1, imm, Flag::NoFlag),
        Instr::Add { rd, rs1, rs2 } => reg_op(Operation::Add, rd, rs1, rs2, Flag::QWord),
        Instr::Sub { rd, rs1, rs2 } => reg_op(Operation::Sub, rd, rs1, rs2, Flag::QWord),
        Instr::Sll { rd, rs1, rs2 } => reg_op(Operation::Shl, rd, rs1, rs2, Flag::QWord),
        Instr::Slt { rd, rs1, rs2 } => reg_op(Operation::Slt, rd, rs1, rs2, Flag::Signed),
        Instr::Sltu { rd, rs1, rs2 } => reg_op(Operation::Slt, rd, rs1, rs2, Flag::Unsigned),
        Instr::Xor { rd, rs1, rs2 } => reg_op(Operation::Xor, rd, rs1, rs2, Flag::NoFlag),
        Instr::Srl { rd, rs1, rs2 } => reg_op(Operation::Shr, rd, rs1, rs2, Flag::QWord),
        Instr::Sra { rd, rs1, rs2 } => reg_op(Operation::Sar, rd, rs1, rs2, Flag::QWord),
        Instr::Or { rd, rs1, rs2 } => reg_op(Operation::Or, rd, rs1, rs2, Flag::NoFlag),
        Instr::And { rd, rs1, rs2 } => reg_op(Operation::And, rd, rs1, rs2, Flag::NoFlag),
        Instr::Addw { rd, rs1, rs2 } => reg_op(Operation::Add, rd, rs1, rs2, Flag::DWord),
        Instr::Subw { rd, rs1, rs2 } => reg_op(Operation::Sub, rd, rs1, rs2, Flag::DWord),
        Instr::Sllw { rd, rs1, rs2 } => reg_op(Operation::Shl, rd, rs1, rs2, Flag::DWord),
        Instr::Srlw { rd, rs1, rs2 } => reg_op(Operation::Shr, rd, rs1, rs2, Flag::DWord),
        Instr::Sraw { rd, rs1, rs2 } => reg_op(Operation::Sar, rd, rs1, rs2, Flag::DWord),
        Instr::Ecall => Some(seq![(Operation::Syscall, Seq::empty(), None, Flag::NoFlag)]),
        _ => None,
    }
}

/// The access width in bytes that memory-access flags name (`Byte`, `Word`, `DWord`, `QWord`)
pub open spec fn flag_width(f: u16) -> int {
    if flag_set(f, Flag::Byte) {
        1
    } else if flag_set(f, Flag::Word) {
        2
    } else if flag_set(f, Flag::DWord) {
        4
    } else if flag_set(f, Flag::QWord) {
        8
    } else {
        0
    }
}

/// The width in bytes of an RV64I load with funct3 `mode` (lb lh lw ld lbu lhu lwu), and
/// whether it sign-extends the value; `None` for the funct3 values that name no load
pub open spec fn riscv_load(mode: u8) -> Option<(int, bool)> {
    if mode == 0 {
        Some((1, true))
    } else if mode == 1 {
        Some((2, true))
    } else if mode == 2 {
        Some((4, true))
    } else if mode == 3 {
        Some((8, true))
    } else if mode == 4 {
        Some((1, false))
    } else if mode == 5 {
        Some((2, false))
    } else if mode == 6 {
        Some((4, false))
    } else {
        None
    }
}

/// Loads and stores lift to accesses of the width that RISC-V gives them (1, 2, 4 or 8 bytes
/// by funct3); the narrow loads lb, lh and lw sign-extend and lbu, lhu and lwu do not
pub proof fn lemma_lifted_access_widths(rd: Register, rs1: Register, rs2: Register, imm: i32, mode: u8)
    ensures
        load_ops(rd, rs1, imm, mode) is Some <==> riscv_load(mode) is Some,
        load_ops(rd, rs1, imm, mode) matches Some(ops) ==> {
            &&& ops.len() == 1
            &&& ops[0].0 == Operation::Load
            &&& ops[0].1 == seq![Val::Reg(rs1), Val::Imm(imm)]
            &&& ops[0].2 == Some(rd)
            &&& riscv_load(mode) matches Some(ws) && flag_width(ops[0].3) == ws.0 && (ws.0 < 8 ==> (flag_set(
                ops[0].3,
                Flag::Signed,
            ) <==> ws.1) && (flag_set(ops[0].3, Flag::Unsigned) <==> !ws.1))
        },
        store_ops(rs1, rs2, imm, mode) is Some <==> mode <= 3,
        store_ops(rs1, rs2, imm, mode) matches Some(ops) ==> {
            &&& ops.len() == 1
            &&& ops[0].0 == Operation::Store
            &&& ops[0].1 == seq![Val::Reg(rs1), Val::Reg(rs2), Val::Imm(imm)]
            &&& flag_width(ops[0].3) == if mode == 0 { 1int } else if mode == 1 { 2 } else if mode == 2 { 4 } else { 8 }
        },
{
    assert(0x40u16 | 0x1u16 == 0x41u16 && 0x80u16 | 0x1u16 == 0x81u16 && 0x100u16 | 0x1u16 == 0x101u16 && 0x40u16
        | 0x2u16 == 0x42u16 && 0x80u16 | 0x2u16 == 0x82u16 && 0x100u16 | 0x2u16 == 0x102u16) by (bit_vector);
}

/// A 12-bit immediate of RISC-V, sign-extended to 64 bits
pub open spec fn imm64(imm: i32) -> u64 {
    (if imm >= 0 {
        imm as int
    } else {
        imm + 0x1_0000_0000_0000_0000
    }) as u64
}

/// The value that an RV64I arithmetic or logic instruction writes to rd, given the value `a` of
/// rs1 and the value `b` of rs2 (for the immediate forms, `b` plays no part and the sign-extended
/// immediate is the second operand; shift amounts are the low 6 bits of it); `None` for the other
/// instructions
pub open spec fn rv64_result(instr: Instr, a: u64, b: u64) -> Option<u64> {
    let m: int = 0x1_0000_0000_0000_0000;
    match instr {
        Instr::Add { .. } => Some(((a + b) % m) as u64),
        Instr::Sub { .. } => Some(((a - b + m) % m) as u64),
        Instr::Sll { .. } => Some(a << (b % 64)),
        Instr::Srl { .. } => Some(a >> (b % 64)),
        Instr::Sra { .. } => Some(if a < 0x8000_0000_0000_0000 { a >> (b % 64) } else { !((!a) >> (b % 64)) }),
        Instr::Xor { .. } => Some(a ^ b),
        Instr::Or { .. } => Some(a | b),
        Instr::And { .. } => Some(a & b),
        Instr::Addi { imm, .. } => Some(((a + imm64(imm)) % m) as u64),
        Instr::Xori { imm, .. } => Some(a ^ imm64(imm)),
        Instr::Ori { imm, .. } => Some(a | imm64(imm)),
        Instr::Andi { imm, .. } => Some(a & imm64(imm)),
        Instr::Slli { imm, .. } => Some(a << (imm64(imm) % 64)),
        Instr::Srli { imm, .. } => Some(a >> (imm64(imm) % 64)),
        Instr::Srai { imm, .. } => Some(
            if a < 0x8000_0000_0000_0000 {
                a >> (imm64(imm) % 64)
            } else {
                !((!a) >> (imm64(imm) % 64))
            },
        ),
        _ => None,
    }
}

/// The IR lifted from an RV64I arithmetic or logic instruction is one 64-bit IR operation on
/// rs1 and rs2 (or the immediate) into rd that computes the instruction's result, for all
/// register values
pub proof fn lemma_lifted_alu_computes_riscv(pc: usize, instr: Instr, a: u64, b: u64)
    requires
        rv64_result(instr, a, b) is Some,
    ensures
        ir_ops(pc, instr) matches Some(ops) && ops.len() == 1 && ops[0].3 != Flag::DWord && ops[0].1.len() == 2
            && ops[0].2 is Some && ir_alu64(
            ops[0].0,
            a,
            match ops[0].1[1] {
                Val::Imm(imm) => imm64(imm),
                _ => b,
            },
        ) == rv64_result(instr, a, b)->0,
        match instr {
            Instr::Add { rd, rs1, rs2 } | Instr::Sub { rd, rs1, rs2 } | Instr::Sll { rd, rs1, rs2 } | Instr::Srl {
                rd,
                rs1,
                rs2,
            } | Instr::Sra { rd, rs1, rs2 } | Instr::Xor { rd, rs1, rs2 } | Instr::Or { rd, rs1, rs2 } | Instr::And {
                rd,
                rs1,
                rs2,
            } => ir_ops(pc, instr)->0[0].1 == seq![Val::Reg(rs1), Val::Reg(rs2)] && ir_ops(pc, instr)->0[0].2 == Some(rd),
            Instr::Addi { rd, rs1, imm } | Instr::Xori { rd, rs1, imm } | Instr::Ori { rd, rs1, imm } | Instr::Andi {
                rd,
                rs1,
                imm,
            } | Instr::Slli { rd, rs1, imm } | Instr::Srli { rd, rs1, imm } | Instr::Srai { rd, rs1, imm } => ir_ops(
                pc,
                instr,
            )->0[0].1 == seq![Val::Reg(rs1), Val::Imm(imm)] && ir_ops(pc, instr)->0[0].2 == Some(rd),
            _ => true,
        },
{
}

/// The 32-bit forms lift to the same IR operation as their 64-bit counterparts, on the same
/// operands, marked 32-bit
pub proof fn lemma_lifted_word_ops(pc: usize, rd: Register, rs1: Register, rs2: Register, imm: i32)
    ensures
        ir_ops(pc, Instr::Addw { rd, rs1, rs2 })->0[0].0 == ir_ops(pc, Instr::Add { rd, rs1, rs2 })->0[0].0,
        ir_ops(pc, Instr::Subw { rd, rs1, rs2 })->0[0].0 == ir_ops(pc, Instr::Sub { rd, rs1, rs2 })->0[0].0,
        ir_ops(pc, Instr::Sllw { rd, rs1, rs2 })->0[0].0 == ir_ops(pc, Instr::Sll { rd, rs1, rs2 })->0[0].0,
        ir_ops(pc, Instr::Srlw { rd, rs1, rs2 })->0[0].0 == ir_ops(pc, Instr::Srl { rd, rs1, rs2 })->0[0].0,
        ir_ops(pc, Instr::Sraw { rd, rs1, rs2 })->0[0].0 == ir_ops(pc, Instr::Sra { rd, rs1, rs2 })->0[0].0,
        ir_ops(pc, Instr::Addiw { rd, rs1, imm })->0[0].0 == ir_ops(pc, Instr::Addi { rd, rs1, imm })->0[0].0,
        ir_ops(pc, Instr::Slliw { rd, rs1, imm })->0[0].0 == ir_ops(pc, Instr::Slli { rd, rs1, imm })->0[0].0,
        ir_ops(pc, Instr::Srliw { rd, rs1, imm })->0[0].0 == ir_ops(pc, Instr::Srli { rd, rs1, imm })->0[0].0,
        ir_ops(pc, Instr::Sraiw { rd, rs1, imm })->0[0].0 == ir_ops(pc, Instr::Srai { rd, rs1, imm })->0[0].0,
        forall|w: Instr|
            (w == Instr::Addw { rd, rs1, rs2 } || w == Instr::Subw { rd, rs1, rs2 } || w == Instr::Sllw { rd, rs1, rs2 } || w == Instr::Srlw { rd, rs1, rs2 }
                || w == Instr::Sraw { rd, rs1, rs2 }) ==> #[trigger] ir_ops(pc, w)->0[0].3 == Flag::DWord && ir_ops(
                pc,
                w,
            )->0[0].1 == seq![Val::Reg(rs1), Val::Reg(rs2)],
        forall|w: Instr|
            (w == Instr::Addiw { rd, rs1, imm } || w == Instr::Slliw { rd, rs1, imm } || w == Instr::Srliw {
                rd,
                rs1,
                imm,
            } || w == Instr::Sraiw { rd, rs1, imm }) ==> #[trigger] ir_ops(pc, w)->0[0].3 == Flag::DWord && ir_ops(
                pc,
                w,
            )->0[0].1 == seq![Val::Reg(rs1), Val::Imm(imm)],
{
}

/// Set-less-than compares as signed numbers for slt and slti and as unsigned ones for sltu
/// and sltiu
pub proof fn lemma_lifted_set_less_than(pc: usize, rd: Register, rs1: Register, rs2: Register, imm: i32)
    ensures
        ir_ops(pc, Instr::Slt { rd, rs1, rs2 }) == Some(seq![(Operation::Slt, seq![Val::Reg(rs1), Val::Reg(rs2)], Some(rd), Flag::Signed)]),
        ir_ops(pc, Instr::Sltu { rd, rs1, rs2 }) == Some(seq![(Operation::Slt, seq![Val::Reg(rs1), Val::Reg(rs2)], Some(rd), Flag::Unsigned)]),
        ir_ops(pc, Instr::Slti { rd, rs1, imm }) == Some(seq![(Operation::Slt, seq![Val::Reg(rs1), Val::Imm(imm)], Some(rd), Flag::Signed)]),
        ir_ops(pc, Instr::Sltiu { rd, rs1, imm }) == Some(seq![(Operation::Slt, seq![Val::Reg(rs1), Val::Imm(imm)], Some(rd), Flag::Unsigned)]),
{
}

/// The IR ops of one instruction, the first of them tagged with the instruction's pc
pub open spec fn tag(pc: usize, ops: Seq<IrOp>) -> Seq<IrTagged> {
    Seq::new(
        ops.len(),
        |k: int| (ops[k].0, ops[k].1, ops[k].2, ops[k].3, if k == 0 { Some(pc) } else { None }),
    )
}

/// The pc of the `i`-th of a run of instructions that starts at `pc`
pub open spec fn pc_at(pc: usize, i: int) -> usize {
    (pc + 4 * i) as usize
}

/// Every instruction of the run starting at `pc` can be lifted, and no pc of it overflows
pub open spec fn liftable(pc: usize, instrs: Seq<Instr>) -> bool {
    &&& pc + 4 * instrs.len() <= usize::MAX
    &&& forall|i: int| 0 <= i < instrs.len() ==> (#[trigger] ir_ops(pc_at(pc, i), instrs[i])) is Some
}

/// The IR that lifting the run of instructions starting at `pc` appends
#[verifier::opaque]
pub open spec fn lifted(pc: usize, instrs: Seq<Instr>) -> Seq<IrTagged>
    decreases instrs.len(),
{
    if instrs.len() == 0 {
        Seq::empty()
    } else {
        let n = instrs.len() - 1;
        lifted(pc, instrs.take(n)) + tag(pc_at(pc, n), ir_ops(pc_at(pc, n), instrs[n]).unwrap())
    }
}

/// The labels after lifting the run starting at `pc` into a graph of `base` instructions: every
/// pc of the run that is among `keys` labels the first IR instruction lifted from it.
pub open spec fn labels_after(
    labels: Map<usize, usize>,
    base: int,
    pc: usize,
    instrs: Seq<Instr>,
    keys: Map<usize, u8>,
) -> Map<usize, usize>
    decreases instrs.len(),
{
    if instrs.len() == 0 {
        labels
    } else {
        let n = instrs.len() - 1;
        let prev = labels_after(labels, base, pc, instrs.take(n), keys);
        if keys.contains_key(pc_at(pc, n)) {
            prev.insert(pc_at(pc, n), (base + lifted(pc, instrs.take(n)).len()) as usize)
        } else {
            prev
        }
    }
}

/// Where a jump or branch at `pc` may continue, as the label pass computes it (in 32-bit
/// arithmetic): the target of a `jal`, and both the target and the fall-through of a branch.
pub open spec fn instr_targets(pc: usize, instr: Instr) -> Set<usize> {
    match instr {
        Instr::Jal { imm, .. } => set![((pc as i32) + imm) as usize],
        Instr::Beq { imm, .. } | Instr::Bne { imm, .. } | Instr::Blt { imm, .. } | Instr::Bge {
            imm,
            ..
        } | Instr::Bltu { imm, .. } | Instr::Bgeu { imm, .. } => set![
            ((pc as i32) + imm) as usize,
            ((pc as i32) + 4) as usize,
        ],
        _ => Set::empty(),
    }
}

/// The 32-bit target arithmetic of the label pass does not overflow for the instruction at `pc`
pub open spec fn targets_fit(pc: usize, instr: Instr) -> bool {
    match instr {
        Instr::Jal { imm, .. } => i32::MIN <= (pc as i32) + imm <= i32::MAX,
        Instr::Beq { imm, .. } | Instr::Bne { imm, .. } | Instr::Blt { imm, .. } | Instr::Bge {
            imm,
            ..
        } | Instr::Bltu { imm, .. } | Instr::Bgeu { imm, .. } => i32::MIN <= (pc as i32) + imm
            <= i32::MAX && (pc as i32) + 4 <= i32::MAX,
        _ => true,
    }
}

/// All jump and branch targets of the run of instructions starting at `pc`
pub open spec fn label_targets(pc: usize, instrs: Seq<Instr>) -> Set<usize>
    decreases instrs.len(),
{
    if instrs.len() == 0 {
        Set::empty()
    } else {
        let n = instrs.len() - 1;
        label_targets(pc, instrs.take(n)).union(instr_targets(pc_at(pc, n), instrs[n]))
    }
}

/// The label pass can run over the instructions starting at `pc` without an overflow
pub open spec fn labels_fit(pc: usize, instrs: Seq<Instr>) -> bool {
    &&& pc + 4 * instrs.len() <= usize::MAX
    &&& forall|i: int| 0 <= i < instrs.len() ==> #[trigger] targets_fit(pc_at(pc, i), instrs[i])
}

/// Whether the 32-bit target arithmetic of the label pass fits for the instruction at `pc`
pub fn targets_fit_at(pc: usize, instr: Instr) -> (r: bool)
    ensures
        r == targets_fit(pc, instr),
{
    let p = pc as i32;
    match instr {
        Instr::Jal { imm, .. } => p.checked_add(imm).is_some(),
        Instr::Beq { imm, .. } | Instr::Bne { imm, .. } | Instr::Blt { imm, .. } | Instr::Bge {
            imm,
            ..
        } | Instr::Bltu { imm, .. } | Instr::Bgeu { imm, .. } => {
            p.checked_add(imm).is_some() && p.checked_add(4).is_some()
        },
        _ => true,
    }
}

/// The guest word at `addr`, as the lifter reads it
pub open spec fn word_at(m: Mmu, addr: int) -> u32 {
    u32::spec_from_bytes(m.memory@.subrange(addr, addr + 4))
}

/// The word at `addr` lies in guest memory and is readable and executable
pub open spec fn word_fetchable(m: Mmu, addr: int) -> bool {
    &&& addr + 4 <= m.memory@.len()
    &&& first_lacking(m.permissions@, addr, addr + 4, Perms::READ | Perms::EXECUTE) is None
}

/// The instruction that the word at `addr` decodes to
pub open spec fn instr_at(m: Mmu, addr: int) -> Instr {
    match spec_decode(word_at(m, addr)) {
        Some(Ok(i)) => i,
        _ => Instr::Nil,
    }
}

/// Number of instruction words that a function of `size` bytes spans
pub open spec fn n_words(size: usize) -> int {
    (size + 3) / 4
}

/// The instructions of the function of `size` bytes that starts at `pc`
pub open spec fn func_instrs(m: Mmu, pc: usize, size: usize) -> Seq<Instr> {
    Seq::new(n_words(size) as nat, |i: int| instr_at(m, pc_at(pc, i) as int))
}

/// The `i`-th word of the function at `pc` can be fetched, decoded and lifted
pub open spec fn word_liftable(m: Mmu, pc: usize, i: int) -> bool {
    let a = pc_at(pc, i);
    &&& word_fetchable(m, a as int)
    &&& spec_decode(word_at(m, a as int)) matches Some(Ok(_))
    &&& ir_ops(a, instr_at(m, a as int)) is Some
    &&& targets_fit(a, instr_at(m, a as int))
}

/// The labels that the lifter marks in a function: every jump and branch target, and the entry
pub open spec fn func_keys(pc: usize, instrs: Seq<Instr>) -> Set<usize> {
    label_targets(pc, instrs).insert(pc)
}

/// The keys of a label map as a map to 0
pub open spec fn key_map(keys: Set<usize>) -> Map<usize, u8> {
    Map::new(|p: usize| keys.contains(p), |p: usize| 0u8)
}

/// Resetting an emulator to the one it was forked from (and that has run since) gives back the
/// original's memory, permissions, registers and files.
pub proof fn lemma_reset_restores_emulator(before: Emulator, original: Emulator, after: Emulator)
    requires
        crate::mmu::agrees_outside_dirty(before.memory, original.memory),
        reset_post(before.memory, original.memory, after.memory),
        after.regs@ == original.regs@,
        files_view(after.fd_list@) == files_view(original.fd_list@),
    ensures
        after.memory.memory@ == original.memory.memory@,
        after.memory.permissions@ == original.memory.permissions@,
        after.regs@ == original.regs@,
        forall|r: Register| after.reg(r) == original.reg(r),
        files_view(after.fd_list@) == files_view(original.fd_list@),
{
    crate::mmu::lemma_reset_restores(before.memory, original.memory, after.memory);
}

/// Every instruction the lifter supports becomes at least one IR instruction.
proof fn lemma_ir_ops_nonempty(pc: usize, instr: Instr)
    requires
        ir_ops(pc, instr) is Some,
    ensures
        ir_ops(pc, instr).unwrap().len() >= 1,
{
}

/// Lifting one more instruction appends its tagged IR, which starts with its pc and holds no
/// other pc.
proof fn lemma_lifted_step(pc: usize, instrs: Seq<Instr>)
    requires
        liftable(pc, instrs),
        instrs.len() > 0,
    ensures
        liftable(pc, instrs.take(instrs.len() - 1)),
        ({
            let n = instrs.len() - 1;
            let prev = lifted(pc, instrs.take(n));
            let all = lifted(pc, instrs);
            &&& all.len() > prev.len()
            &&& all.subrange(0, prev.len() as int) == prev
            &&& all[prev.len() as int].4 == Some(pc_at(pc, n))
            &&& forall|k: int| prev.len() < k < all.len() ==> (#[trigger] all[k]).4 is None
        }),
{
    reveal(lifted);
    let n = instrs.len() - 1;
    let t = instrs.take(n);
    assert forall|i: int| 0 <= i < t.len() implies (#[trigger] ir_ops(pc_at(pc, i), t[i])) is Some by {
        assert(t[i] == instrs[i]);
        assert(ir_ops(pc_at(pc, i), instrs[i]) is Some);
    }
    assert(ir_ops(pc_at(pc, n), instrs[n]) is Some);
    lemma_ir_ops_nonempty(pc_at(pc, n), instrs[n]);
    let prev = lifted(pc, t);
    let all = lifted(pc, instrs);
    assert(all.subrange(0, prev.len() as int) =~= prev);
}

/// The first IR instruction lifted from each RISC-V instruction carries that instruction's pc,
/// and every other one carries none: the tagged IR instructions name, in order, the pcs of the
/// run and nothing else.
pub proof fn lemma_lifted_pcs(pc: usize, instrs: Seq<Instr>)
    requires
        liftable(pc, instrs),
    ensures
        forall|k: int|
            0 <= k < lifted(pc, instrs).len() ==> match #[trigger] lifted(pc, instrs)[k].4 {
                Some(p) => exists|i: int| 0 <= i < instrs.len() && p == pc_at(pc, i),
                None => true,
            },
        forall|i: int|
            0 <= i < instrs.len() ==> exists|k: int|
                0 <= k < lifted(pc, instrs).len() && #[trigger] lifted(pc, instrs)[k].4 == Some(
                    #[trigger] pc_at(pc, i),
                ),
    decreases instrs.len(),
{
    if instrs.len() > 0 {
        let n = instrs.len() - 1;
        let t = instrs.take(n);
        lemma_lifted_step(pc, instrs);
        lemma_lifted_pcs(pc, t);
        let prev = lifted(pc, t);
        let all = lifted(pc, instrs);
        assert forall|k: int| 0 <= k < all.len() implies match #[trigger] all[k].4 {
            Some(p) => exists|i: int| 0 <= i < instrs.len() && p == pc_at(pc, i),
            None => true,
        } by {
            if k < prev.len() {
                assert(all[k] == all.subrange(0, prev.len() as int)[k]);
                if let Some(p) = prev[k].4 {
                    let i = choose|i: int| 0 <= i < t.len() && p == pc_at(pc, i);
                    assert(0 <= i < instrs.len() && p == pc_at(pc, i));
                }
            } else if k == prev.len() {
                assert(0 <= n < instrs.len() && all[k].4 == Some(pc_at(pc, n)));
            }
        }
        assert forall|i: int| 0 <= i < instrs.len() implies exists|k: int|
            0 <= k < all.len() && #[trigger] all[k].4 == Some(#[trigger] pc_at(pc, i)) by {
            if i < n {
                let k = choose|k: int| 0 <= k < prev.len() && #[trigger] prev[k].4 == Some(pc_at(pc, i));
                assert(all[k] == all.subrange(0, prev.len() as int)[k]);
            } else {
                assert(all[prev.len() as int].4 == Some(pc_at(pc, n)));
            }
        }
    } else {
        reveal(lifted);
    }
}

/// Every label that lifting sets points at the first IR instruction lifted from the label's pc;
/// the other labels of the graph keep their places.
pub proof fn lemma_labels_point_at_their_pc(
    labels: Map<usize, usize>,
    base: int,
    pc: usize,
    instrs: Seq<Instr>,
    keys: Map<usize, u8>,
)
    requires
        liftable(pc, instrs),
        0 <= base,
        base + lifted(pc, instrs).len() <= usize::MAX,
    ensures
        forall|p: usize|
            #[trigger] labels_after(labels, base, pc, instrs, keys).contains_key(p) ==> {
                let idx = labels_after(labels, base, pc, instrs, keys)[p] as int;
                ||| (labels.contains_key(p) && idx == labels[p])
                ||| (base <= idx < base + lifted(pc, instrs).len() && lifted(pc, instrs)[idx - base].4
                    == Some(p))
            },
    decreases instrs.len(),
{
    if instrs.len() > 0 {
        let n = instrs.len() - 1;
        let t = instrs.take(n);
        assert(liftable(pc, t)) by {
            assert forall|i: int| 0 <= i < t.len() implies (#[trigger] ir_ops(pc_at(pc, i), t[i])) is Some by {
                assert(t[i] == instrs[i]);
                assert(ir_ops(pc_at(pc, i), instrs[i]) is Some);
            }
        }
        lemma_lifted_step(pc, instrs);
        let prev = lifted(pc, t);
        let all = lifted(pc, instrs);
        lemma_labels_point_at_their_pc(labels, base, pc, t, keys);
        let lp = labels_after(labels, base, pc, t, keys);
        let la = labels_after(labels, base, pc, instrs, keys);
        assert forall|p: usize| #[trigger] la.contains_key(p) implies {
            let idx = la[p] as int;
            ||| (labels.contains_key(p) && idx == labels[p])
            ||| (base <= idx < base + all.len() && all[idx - base].4 == Some(p))
        } by {
            if keys.contains_key(pc_at(pc, n)) && p == pc_at(pc, n) {
                assert(la[p] == (base + prev.len()) as usize);
                assert(all[prev.len() as int].4 == Some(pc_at(pc, n)));
            } else {
                assert(lp.contains_key(p));
                assert(la[p] == lp[p]);
                let idx = lp[p] as int;
                if !(labels.contains_key(p) && idx == labels[p]) {
                    assert(all[idx - base] == all.subrange(0, prev.len() as int)[idx - base]);
                }
            }
        }
    }
}

/// Appending one tagged op, or two, is appending the tag of the ops
proof fn lemma_tag_push(s: Seq<IrTagged>, pc: usize, ops: Seq<IrOp>)
    ensures
        ops.len() == 1 ==> s + tag(pc, ops) == s.push((ops[0].0, ops[0].1, ops[0].2, ops[0].3, Some(pc))),
        ops.len() == 2 ==> s + tag(pc, ops) == s.push((ops[0].0, ops[0].1, ops[0].2, ops[0].3, Some(pc))).push(
            (ops[1].0, ops[1].1, ops[1].2, ops[1].3, None),
        ),
{
    if ops.len() == 1 {
        assert(s + tag(pc, ops) =~= s.push((ops[0].0, ops[0].1, ops[0].2, ops[0].3, Some(pc))));
    }
    if ops.len() == 2 {
        assert(s + tag(pc, ops) =~= s.push((ops[0].0, ops[0].1, ops[0].2, ops[0].3, Some(pc))).push(
            (ops[1].0, ops[1].1, ops[1].2, ops[1].3, None),
        ));
    }
}

fn branch_flags_of(mode: u8) -> (r: Option<u16>)
    ensures
        r == branch_flags(mode),
{
    match mode {
        0b000 => Some(Flag::Equal | Flag::Signed),
        0b001 => Some(Flag::NEqual | Flag::Signed),
        0b100 => Some(Flag::Less | Flag::Signed),
        0b101 => Some(Flag::Greater | Flag::Signed | Flag::Equal),
        0b110 => Some(Flag::Less | Flag::Unsigned),
        0b111 => Some(Flag::Greater | Flag::Unsigned | Flag::Equal),
        _ => None,
    }
}

fn load_flags_of(mode: u8) -> (r: Option<u16>)
    ensures
        r == load_flags(mode),
{
    match mode {
        0b000 => Some(Flag::Byte | Flag::Signed),
        0b001 => Some(Flag::Word | Flag::Signed),
        0b010 => Some(Flag::DWord | Flag::Signed),
        0b100 => Some(Flag::Byte | Flag::Unsigned),
        0b101 => Some(Flag::Word | Flag::Unsigned),
        0b110 => Some(Flag::DWord | Flag::Unsigned),
        0b011 => Some(Flag::QWord),
        _ => None,
    }
}

fn store_flags_of(mode: u8) -> (r: Option<u16>)
    ensures
        r == store_flags(mode),
{
    match mode {
        0b000 => Some(Flag::Byte),
        0b001 => Some(Flag::Word),
        0b010 => Some(Flag::DWord),
        0b011 => Some(Flag::QWord),
        _ => None,
    }
}

/// Whether the lifter supports the instruction at `pc`
pub fn is_liftable(pc: usize, instr: Instr) -> (r: bool)
    ensures
        r == (ir_ops(pc, instr) is Some),
{
    match instr {
        Instr::Beq { mode, .. } | Instr::Bne { mode, .. } | Instr::Blt { mode, .. }
        | Instr::Bge { mode, .. } | Instr::Bltu { mode, .. } | Instr::Bgeu { mode, .. } => {
            branch_flags_of(mode).is_some()
        },
        Instr::Lb { mode, .. } | Instr::Lh { mode, .. } | Instr::Lw { mode, .. }
        | Instr::Lbu { mode, .. } | Instr::Lhu { mode, .. } | Instr::Lwu { mode, .. }
        | Instr::Ld { mode, .. } => load_flags_of(mode).is_some(),
        Instr::Sb { mode, .. } | Instr::Sh { mode, .. } | Instr::Sw { mode, .. }
        | Instr::Sd { mode, .. } => store_flags_of(mode).is_some(),
        Instr::Nil | Instr::Fence | Instr::Ebreak | Instr::Mul { .. } | Instr::Mulh { .. }
        | Instr::Mulhsu { .. } | Instr::Mulhu { .. } | Instr::Div { .. } | Instr::Divu { .. }
        | Instr::Rem { .. } | Instr::Remu { .. } | Instr::Mulw { .. } | Instr::Divw { .. }
        | Instr::Divuw { .. } | Instr::Remw { .. } | Instr::Remuw { .. } => false,
        _ => true,
    }
}

/// Lift one upper-immediate, jump or system instruction at `pc` into the graph, whose pending pc is `pc`
fn lift_control(irgraph: &mut IRGraph, instr: Instr, pc: usize)
    requires
        instr is Lui || instr is Auipc || instr is Jal || instr is Jalr || instr is Ecall,
        ir_ops(pc, instr) is Some,
        old(irgraph).cur_pc == Some(pc),
    ensures
        ir_views(final(irgraph).instrs@) == ir_views(old(irgraph).instrs@) + tag(pc, ir_ops(pc, instr).unwrap()),
        final(irgraph).labels@ == old(irgraph).labels@,
        final(irgraph).cur_pc is None,
{
    match instr {
        Instr::Lui { rd, imm } => {
            irgraph.movi(rd, imm, Flag::Signed);
            proof {
                lemma_tag_push(ir_views(old(irgraph).instrs@), pc, ir_ops(pc, instr).unwrap());
            }
        },
        Instr::Auipc { rd, imm } => {
            let result = (imm as i64 as u64).wrapping_add(pc as u64);
            irgraph.movi64(rd, result as i64, Flag::Unsigned);
            proof {
                lemma_tag_push(ir_views(old(irgraph).instrs@), pc, ir_ops(pc, instr).unwrap());
            }
        },
        Instr::Jal { rd, imm } => {
            let jmp_target = pc.wrapping_add(imm as i64 as usize);
            if rd != Register::Zero {
                irgraph.movi64(rd, pc.wrapping_add(4) as i64, Flag::Unsigned);
            }
            irgraph.jmp(jmp_target);
            proof {
                lemma_tag_push(ir_views(old(irgraph).instrs@), pc, ir_ops(pc, instr).unwrap());
            }
        },
        Instr::Jalr { rd, imm, rs1 } => {
            if rd != Register::Zero {
                irgraph.movi64(rd, pc.wrapping_add(4) as i64, Flag::Unsigned);
            }
            irgraph.jmp_offset(rs1, imm);
            proof {
                lemma_tag_push(ir_views(old(irgraph).instrs@), pc, ir_ops(pc, instr).unwrap());
            }
        },
        Instr::Ecall => {
            irgraph.syscall();
            proof {
                lemma_tag_push(ir_views(old(irgraph).instrs@), pc, ir_ops(pc, instr).unwrap());
            }
        },
        _ => {},
    }
}

/// Lift one conditional branch at `pc` into the graph, whose pending pc is `pc`
fn lift_branch(irgraph: &mut IRGraph, instr: Instr, pc: usize)
    requires
        instr is Beq || instr is Bne || instr is Blt || instr is Bge || instr is Bltu || instr is Bgeu,
        ir_ops(pc, instr) is Some,
        old(irgraph).cur_pc == Some(pc),
    ensures
        ir_views(final(irgraph).instrs@) == ir_views(old(irgraph).instrs@) + tag(pc, ir_ops(pc, instr).unwrap()),
        final(irgraph).labels@ == old(irgraph).labels@,
        final(irgraph).cur_pc is None,
{
    match instr {
        Instr::Beq { rs1, rs2, imm, mode } | Instr::Bne { rs1, rs2, imm, mode }
        | Instr::Blt { rs1, rs2, imm, mode } | Instr::Bge { rs1, rs2, imm, mode }
        | Instr::Bltu { rs1, rs2, imm, mode } | Instr::Bgeu { rs1, rs2, imm, mode } => {
            let true_part = pc.wrapping_add(imm as i64 as usize);
            let false_part = pc.wrapping_add(4);
            if let Some(f) = branch_flags_of(mode) {
                irgraph.branch(rs1, rs2, true_part, false_part, f);
            }
            proof {
                lemma_tag_push(ir_views(old(irgraph).instrs@), pc, ir_ops(pc, instr).unwrap());
            }
        },
        _ => {},
    }
}

/// Lift one load at `pc` into the graph, whose pending pc is `pc`
fn lift_load(irgraph: &mut IRGraph, instr: Instr, pc: usize)
    requires
        instr is Lb || instr is Lh || instr is Lw || instr is Lbu || instr is Lhu || instr is Lwu || instr is Ld,
        ir_ops(pc, instr) is Some,
        old(irgraph).cur_pc == Some(pc),
    ensures
        ir_views(final(irgraph).instrs@) == ir_views(old(irgraph).instrs@) + tag(pc, ir_ops(pc, instr).unwrap()),
        final(irgraph).labels@ == old(irgraph).labels@,
        final(irgraph).cur_pc is None,
{
    match instr {
        Instr::Lb { rd, rs1, imm, mode } | Instr::Lh { rd, rs1, imm, mode }
        | Instr::Lw { rd, rs1, imm, mode } | Instr::Lbu { rd, rs1, imm, mode }
        | Instr::Lhu { rd, rs1, imm, mode } | Instr::Lwu { rd, rs1, imm, mode }
        | Instr::Ld { rd, rs1, imm, mode } => {
            if let Some(f) = load_flags_of(mode) {
                irgraph.load(rd, rs1, imm, f);
            }
            proof {
                lemma_tag_push(ir_views(old(irgraph).instrs@), pc, ir_ops(pc, instr).unwrap());
            }
        },
        _ => {},
    }
}

/// Lift one store at `pc` into the graph, whose pending pc is `pc`
fn lift_store(irgraph: &mut IRGraph, instr: Instr, pc: usize)
    requires
        instr is Sb || instr is Sh || instr is Sw || instr is Sd,
        ir_ops(pc, instr) is Some,
        old(irgraph).cur_pc == Some(pc),
    ensures
        ir_views(final(irgraph).instrs@) == ir_views(old(irgraph).instrs@) + tag(pc, ir_ops(pc, instr).unwrap()),
        final(irgraph).labels@ == old(irgraph).labels@,
        final(irgraph).cur_pc is None,
{
    match instr {
        Instr::Sb { rs1, rs2, imm, mode } | Instr::Sh { rs1, rs2, imm, mode }
        | Instr::Sw { rs1, rs2, imm, mode } | Instr::Sd { rs1, rs2, imm, mode } => {
            if let Some(f) = store_flags_of(mode) {
                irgraph.store(rs1, rs2, imm, f);
            }
            proof {
                lemma_tag_push(ir_views(old(irgraph).instrs@), pc, ir_ops(pc, instr).unwrap());
            }
        },
        _ => {},
    }
}

/// Lift one register-immediate operation at `pc` into the graph, whose pending pc is `pc`
fn lift_alu_imm(irgraph: &mut IRGraph, instr: Instr, pc: usize)
    requires
        instr is Sltiu || instr is Slti || instr is Addi || instr is Slli || instr is Srli || instr is Srai || instr is Addiw || instr is Slliw || instr is Srliw || instr is Sraiw || instr is Xori || instr is Andi || instr is Ori,
        ir_ops(pc, instr) is Some,
        old(irgraph).cur_pc == Some(pc),
    ensures
        ir_views(final(irgraph).instrs@) == ir_views(old(irgraph).instrs@) + tag(pc, ir_ops(pc, instr).unwrap()),
        final(irgraph).labels@ == old(irgraph).labels@,
        final(irgraph).cur_pc is None,
{
    match instr {
        Instr::Sltiu { rd, rs1, imm } => {
            irgraph.slti(rd, rs1, imm, Flag::Unsigned);
            proof {
                lemma_tag_push(ir_views(old(irgraph).instrs@), pc, ir_ops(pc, instr).unwrap());
            }
        },
        Instr::Slti { rd, rs1, imm } => {
            irgraph.slti(rd, rs1, imm, Flag::Signed);
            proof {
                lemma_tag_push(ir_views(old(irgraph).instrs@), pc, ir_ops(pc, instr).unwrap());
            }
        },
        Instr::Addi { rd, rs1, imm } => {
            irgraph.addi(rd, rs1, imm, Flag::QWord);
            proof {
                lemma_tag_push(ir_views(old(irgraph).instrs@), pc, ir_ops(pc, instr).unwrap());
            }
        },
        Instr::Slli { rd, rs1, imm } => {
            irgraph.shli(rd, rs1, imm, Flag::QWord);
            proof {
                lemma_tag_push(ir_views(old(irgraph).instrs@), pc, ir_ops(pc, instr).unwrap());
            }
        },
        Instr::Srli { rd, rs1, imm } => {
            irgraph.shri(rd, rs1, imm, Flag::QWord);
            proof {
                lemma_tag_push(ir_views(old(irgraph).instrs@), pc, ir_ops(pc, instr).unwrap());
            }
        },
        Instr::Srai { rd, rs1, imm } => {
            irgraph.sari(rd, rs1, imm, Flag::QWord);
            proof {
                lemma_tag_push(ir_views(old(irgraph).instrs@), pc, ir_ops(pc, instr).unwrap());
            }
        },
        Instr::Addiw { rd, rs1, imm } => {
            irgraph.addi(rd, rs1, imm, Flag::DWord);
            proof {
                lemma_tag_push(ir_views(old(irgraph).instrs@), pc, ir_ops(pc, instr).unwrap());
            }
        },
        Instr::Slliw { rd, rs1, imm } => {
            irgraph.shli(rd, rs1, imm, Flag::DWord);
            proof {
                lemma_tag_push(ir_views(old(irgraph).instrs@), pc, ir_ops(pc, instr).unwrap());
            }
        },
        Instr::Srliw { rd, rs1, imm } => {
            irgraph.shri(rd, rs1, imm, Flag::DWord);
            proof {
                lemma_tag_push(ir_views(old(irgraph).instrs@), pc, ir_ops(pc, instr).unwrap());
            }
        },
        Instr::Sraiw { rd, rs1, imm } => {
            irgraph.sari(rd, rs1, imm, Flag::DWord);
            proof {
                lemma_tag_push(ir_views(old(irgraph).instrs@), pc, ir_ops(pc, instr).unwrap());
            }
        },
        Instr::Xori { rd, rs1, imm } => {
            irgraph.xori(rd, rs1, imm);
            proof {
                lemma_tag_push(ir_views(old(irgraph).instrs@), pc, ir_ops(pc, instr).unwrap());
            }
        },
        Instr::Andi { rd, rs1, imm } => {
            irgraph.andi(rd, rs1, imm);
            proof {
                lemma_tag_push(ir_views(old(irgraph).instrs@), pc, ir_ops(pc, instr).unwrap());
            }
        },
        Instr::Ori { rd, rs1, imm } => {
            irgraph.ori(rd, rs1, imm);
            proof {
                lemma_tag_push(ir_views(old(irgraph).instrs@), pc, ir_ops(pc, instr).unwrap());
            }
        },
        _ => {},
    }
}

/// Lift one register-register operation at `pc` into the graph, whose pending pc is `pc`
fn lift_alu_reg(irgraph: &mut IRGraph, instr: Instr, pc: usize)
    requires
        instr is Add || instr is Sub || instr is Sll || instr is Slt || instr is Sltu || instr is Xor || instr is Srl || instr is Sra || instr is Or || instr is And || instr is Addw || instr is Subw || instr is Sllw || instr is Srlw || instr is Sraw,
        ir_ops(pc, instr) is Some,
        old(irgraph).cur_pc == Some(pc),
    ensures
        ir_views(final(irgraph).instrs@) == ir_views(old(irgraph).instrs@) + tag(pc, ir_ops(pc, instr).unwrap()),
        final(irgraph).labels@ == old(irgraph).labels@,
        final(irgraph).cur_pc is None,
{
    match instr {
        Instr::Add { rd, rs1, rs2 } => {
            irgraph.add(rd, rs1, rs2, Flag::QWord);
            proof {
                lemma_tag_push(ir_views(old(irgraph).instrs@), pc, ir_ops(pc, instr).unwrap());
            }
        },
        Instr::Sub { rd, rs1, rs2 } => {
            irgraph.sub(rd, rs1, rs2, Flag::QWord);
            proof {
                lemma_tag_push(ir_views(old(irgraph).instrs@), pc, ir_ops(pc, instr).unwrap());
            }
        },
        Instr::Sll { rd, rs1, rs2 } => {
            irgraph.shl(rd, rs1, rs2, Flag::QWord);
            proof {
                lemma_tag_push(ir_views(old(irgraph).instrs@), pc, ir_ops(pc, instr).unwrap());
            }
        },
        Instr::Slt { rd, rs1, rs2 } => {
            irgraph.slt(rd, rs1, rs2, Flag::Signed);
            proof {
                lemma_tag_push(ir_views(old(irgraph).instrs@), pc, ir_ops(pc, instr).unwrap());
            }
        },
        Instr::Sltu { rd, rs1, rs2 } => {
            irgraph.slt(rd, rs1, rs2, Flag::Unsigned);
            proof {
                lemma_tag_push(ir_views(old(irgraph).instrs@), pc, ir_ops(pc, instr).unwrap());
            }
        },
        Instr::Xor { rd, rs1, rs2 } => {
            irgraph.xor(rd, rs1, rs2);
            proof {
                lemma_tag_push(ir_views(old(irgraph).instrs@), pc, ir_ops(pc, instr).unwrap());
            }
        },
        Instr::Srl { rd, rs1, rs2 } => {
            irgraph.shr(rd, rs1, rs2, Flag::QWord);
            proof {
                lemma_tag_push(ir_views(old(irgraph).instrs@), pc, ir_ops(pc, instr).unwrap());
            }
        },
        Instr::Sra { rd, rs1, rs2 } => {
            irgraph.sar(rd, rs1, rs2, Flag::QWord);
            proof {
                lemma_tag_push(ir_views(old(irgraph).instrs@), pc, ir_ops(pc, instr).unwrap());
            }
        },
        Instr::Or { rd, rs1, rs2 } => {
            irgraph.or(rd, rs1, rs2);
            proof {
                lemma_tag_push(ir_views(old(irgraph).instrs@), pc, ir_ops(pc, instr).unwrap());
            }
        },
        Instr::And { rd, rs1, rs2 } => {
            irgraph.and(rd, rs1, rs2);
            proof {
                lemma_tag_push(ir_views(old(irgraph).instrs@), pc, ir_ops(pc, instr).unwrap());
            }
        },
        Instr::Addw { rd, rs1, rs2 } => {
            irgraph.add(rd, rs1, rs2, Flag::DWord);
            proof {
                lemma_tag_push(ir_views(old(irgraph).instrs@), pc, ir_ops(pc, instr).unwrap());
            }
        },
        Instr::Subw { rd, rs1, rs2 } => {
            irgraph.sub(rd, rs1, rs2, Flag::DWord);
            proof {
                lemma_tag_push(ir_views(old(irgraph).instrs@), pc, ir_ops(pc, instr).unwrap());
            }
        },
        Instr::Sllw { rd, rs1, rs2 } => {
            irgraph.shl(rd, rs1, rs2, Flag::DWord);
            proof {
                lemma_tag_push(ir_views(old(irgraph).instrs@), pc, ir_ops(pc, instr).unwrap());
            }
        },
        Instr::Srlw { rd, rs1, rs2 } => {
            irgraph.shr(rd, rs1, rs2, Flag::DWord);
            proof {
                lemma_tag_push(ir_views(old(irgraph).instrs@), pc, ir_ops(pc, instr).unwrap());
            }
        },
        Instr::Sraw { rd, rs1, rs2 } => {
            irgraph.sar(rd, rs1, rs2, Flag::DWord);
            proof {
                lemma_tag_push(ir_views(old(irgraph).instrs@), pc, ir_ops(pc, instr).unwrap());
            }
        },
        _ => {},
    }
}

/// Lift one instruction at `pc` into the graph, whose pending pc is `pc`
fn lift_one(irgraph: &mut IRGraph, instr: Instr, pc: usize)
    requires
        ir_ops(pc, instr) is Some,
        old(irgraph).cur_pc == Some(pc),
    ensures
        ir_views(final(irgraph).instrs@) == ir_views(old(irgraph).instrs@) + tag(pc, ir_ops(pc, instr).unwrap()),
        final(irgraph).labels@ == old(irgraph).labels@,
        final(irgraph).cur_pc is None,
{
    match instr {
        Instr::Lui { .. } | Instr::Auipc { .. } | Instr::Jal { .. } | Instr::Jalr { .. }
        | Instr::Ecall => lift_control(irgraph, instr, pc),
        Instr::Beq { .. } | Instr::Bne { .. } | Instr::Blt { .. } | Instr::Bge { .. }
        | Instr::Bltu { .. } | Instr::Bgeu { .. } => lift_branch(irgraph, instr, pc),
        Instr::Lb { .. } | Instr::Lh { .. } | Instr::Lw { .. } | Instr::Lbu { .. }
        | Instr::Lhu { .. } | Instr::Lwu { .. } | Instr::Ld { .. } => lift_load(irgraph, instr, pc),
        Instr::Sb { .. } | Instr::Sh { .. } | Instr::Sw { .. } | Instr::Sd { .. } => {
            lift_store(irgraph, instr, pc)
        },
        Instr::Sltiu { .. } | Instr::Slti { .. } | Instr::Addi { .. } | Instr::Slli { .. }
        | Instr::Srli { .. } | Instr::Srai { .. } | Instr::Addiw { .. } | Instr::Slliw { .. }
        | Instr::Srliw { .. } | Instr::Sraiw { .. } | Instr::Xori { .. } | Instr::Andi { .. }
        | Instr::Ori { .. } => lift_alu_imm(irgraph, instr, pc),
        _ => lift_alu_reg(irgraph, instr, pc),
    }
}

impl Emulator {
    /// Well-formedness: a well-formed memory, and every fuzz-input or other file has a cursor
    pub open spec fn wf(&self) -> bool {
        &&& self.memory.wf()
        &&& forall|i: int|
            0 <= i < self.fd_list@.len() ==> (#[trigger] self.fd_list@[i].ftype == FileType::FUZZINPUT
                || self.fd_list@[i].ftype == FileType::OTHER) ==> self.fd_list@[i].cursor is Some
    }

    /// The value the guest sees in `reg`
    pub open spec fn reg(&self, reg: Register) -> usize {
        reg_value(self.regs@, reg)
    }

    /// Create a new emulator with `size` bytes of guest memory
    pub fn new(size: usize) -> (r: Self)
        ensures
            r.wf(),
            r.memory.memory@ == Seq::new(size as nat, |i: int| 0u8),
            r.memory.permissions@ == Seq::new(size as nat, |i: int| 0u8),
            r.memory.dirty@ == Seq::<usize>::empty(),
            r.memory.alloc_cursor() == crate::mmu::FIRSTALLOCATION,
            r.regs@ == Seq::new(33, |i: int| 0usize),
            r.custom_lib@ == Map::<usize, LibFuncs>::empty(),
            files_view(r.fd_list@) == std_files(),
            r.functions@ == Map::<usize, (usize, String)>::empty(),
            r.fuzz_input@ == Seq::<u8>::empty(),
            r.exit_conds@ == Map::<usize, ExitType>::empty(),
            r.snapshot_addr == 0,
            r.timeout == u64::MAX,
    {
        let mut fd_list: Vec<File> = Vec::new();
        fd_list.push(File::new(FileType::STDIN));
        fd_list.push(File::new(FileType::STDOUT));
        fd_list.push(File::new(FileType::STDERR));
        let r = Emulator {
            memory: Mmu::new(size),
            regs: [0; 33],
            custom_lib: HashMap::new(),
            fd_list,
            functions: HashMap::new(),
            fuzz_input: Vec::new(),
            exit_conds: HashMap::new(),
            snapshot_addr: 0,
            timeout: 0xffffffffffffffff,
        };
        assert(r.regs@ =~= Seq::new(33, |i: int| 0usize));
        assert(files_view(r.fd_list@) =~= std_files());
        r
    }
    /// Fork an emulator into a new one, basically creating an exact copy (with its memory's
    /// dirty-page tracking started afresh)
    pub fn fork(&self) -> (r: Self)
        requires
            self.wf(),
        ensures
            r.wf(),
            fork_post(self.memory, r.memory),
            r.regs@ == self.regs@,
            r.custom_lib@ == self.custom_lib@,
            files_view(r.fd_list@) == files_view(self.fd_list@),
            r.functions@ == self.functions@,
            r.fuzz_input@ == self.fuzz_input@,
            r.exit_conds@ == self.exit_conds@,
            r.snapshot_addr == self.snapshot_addr,
            r.timeout == self.timeout,
    {
        let fd_list = duplicate_files(&self.fd_list);
        let fuzz_input = self.fuzz_input.clone();
        assert(fuzz_input@ =~= self.fuzz_input@);
        let r = Emulator {
            memory: self.memory.fork(),
            regs: self.regs,
            custom_lib: self.custom_lib.clone(),
            fd_list,
            functions: self.functions.clone(),
            fuzz_input,
            exit_conds: self.exit_conds.clone(),
            snapshot_addr: self.snapshot_addr,
            timeout: self.timeout,
        };
        proof {
            assert forall|i: int| 0 <= i < r.fd_list@.len() && (#[trigger] r.fd_list@[i].ftype
                == FileType::FUZZINPUT || r.fd_list@[i].ftype == FileType::OTHER) implies r.fd_list@[i].cursor is Some by {
                assert(files_view(r.fd_list@).len() == files_view(self.fd_list@).len());
                assert(files_view(r.fd_list@)[i] == files_view(self.fd_list@)[i]);
                assert(file_view(r.fd_list@[i]) == file_view(self.fd_list@[i]));
                assert(self.fd_list@[i].ftype == FileType::FUZZINPUT || self.fd_list@[i].ftype
                    == FileType::OTHER ==> self.fd_list@[i].cursor is Some);
            }
        }
        r
    }

    /// Reset the state of this emulator (memory, registers and files) to that of `original`
    pub fn reset(&mut self, original: &Self)
        requires
            old(self).wf(),
            original.wf(),
            reset_defined(old(self).memory, original.memory),
        ensures
            final(self).wf(),
            reset_post(old(self).memory, original.memory, final(self).memory),
            final(self).regs@ == original.regs@,
            files_view(final(self).fd_list@) == files_view(original.fd_list@),
            final(self).custom_lib@ == old(self).custom_lib@,
            final(self).functions@ == old(self).functions@,
            final(self).fuzz_input@ == old(self).fuzz_input@,
            final(self).exit_conds@ == old(self).exit_conds@,
            final(self).snapshot_addr == old(self).snapshot_addr,
            final(self).timeout == old(self).timeout,
    {
        self.memory.reset(&original.memory);
        self.regs = original.regs;
        self.fd_list = duplicate_files(&original.fd_list);
        proof {
            assert forall|i: int| 0 <= i < self.fd_list@.len() && (#[trigger] self.fd_list@[i].ftype
                == FileType::FUZZINPUT || self.fd_list@[i].ftype == FileType::OTHER) implies self.fd_list@[i].cursor is Some by {
                assert(files_view(self.fd_list@).len() == files_view(original.fd_list@).len());
                assert(files_view(self.fd_list@)[i] == files_view(original.fd_list@)[i]);
                assert(file_view(self.fd_list@[i]) == file_view(original.fd_list@[i]));
                assert(original.fd_list@[i].ftype == FileType::FUZZINPUT || original.fd_list@[i].ftype
                    == FileType::OTHER ==> original.fd_list@[i].cursor is Some);
            }
        }
    }

    /// Allocate a new file in the emulator, returning its file descriptor
    pub fn alloc_file(&mut self, ftype: FileType) -> (r: usize)
        requires
            old(self).wf(),
        ensures
            final(self).wf(),
            files_view(final(self).fd_list@) == files_view(old(self).fd_list@).push(fresh_file(ftype)),
            r == old(self).fd_list@.len(),
            final(self).memory == old(self).memory,
            final(self).regs == old(self).regs,
            final(self).fuzz_input == old(self).fuzz_input,
            final(self).custom_lib == old(self).custom_lib,
            final(self).functions == old(self).functions,
            final(self).exit_conds == old(self).exit_conds,
            final(self).snapshot_addr == old(self).snapshot_addr,
            final(self).timeout == old(self).timeout,
    {
        let file = File::new(ftype);
        self.fd_list.push(file);
        assert(files_view(self.fd_list@) =~= files_view(old(self).fd_list@).push(fresh_file(ftype)));
        self.fd_list.len() - 1
    }

    /// Set a register; the zero register cannot be written
    pub fn set_reg(&mut self, reg: Register, val: usize)
        requires
            reg != Register::Zero,
        ensures
            final(self).regs@ == old(self).regs@.update(reg.id(), val),
            final(self).memory == old(self).memory,
            final(self).fd_list == old(self).fd_list,
            final(self).fuzz_input == old(self).fuzz_input,
            final(self).custom_lib == old(self).custom_lib,
            final(self).functions == old(self).functions,
            final(self).exit_conds == old(self).exit_conds,
            final(self).snapshot_addr == old(self).snapshot_addr,
            final(self).timeout == old(self).timeout,
    {
        let i = reg.index();
        self.regs[i] = val;
    }

    /// Get the value stored in a register
    pub fn get_reg(&self, reg: Register) -> (r: usize)
        ensures
            r == self.reg(reg),
    {
        if reg == Register::Zero {
            return 0;
        }
        self.regs[reg.index()]
    }

    /// Load a segment from the elf binary into the emulator memory
    pub fn load_segment(&mut self, segment: ProgramHeader, data: &[u8]) -> (r: Option<()>)
        requires
            old(self).wf(),
            load_defined(old(self).memory, segment, data@.len() as int),
        ensures
            final(self).wf(),
            load_post(old(self).memory, segment, data@, r, final(self).memory),
            final(self).regs == old(self).regs,
            final(self).fd_list == old(self).fd_list,
            final(self).fuzz_input == old(self).fuzz_input,
            final(self).functions == old(self).functions,
    {
        self.memory.load_segment(segment, data)
    }

    /// Allocate a region of memory in the emulator
    pub fn allocate(&mut self, size: usize, perms: u8) -> (r: Option<usize>)
        requires
            old(self).wf(),
            size + 0x18 <= usize::MAX,
        ensures
            final(self).wf(),
            alloc_post(old(self).memory, size as int, perms, r, final(self).memory),
            final(self).regs == old(self).regs,
            final(self).fd_list == old(self).fd_list,
            final(self).fuzz_input == old(self).fuzz_input,
    {
        self.memory.allocate(size, perms)
    }

    /// Free a previously allocated memory region
    pub fn free(&mut self, addr: usize) -> (r: Result<(), Fault>)
        requires
            old(self).wf(),
            free_defined(old(self).memory, addr as int),
        ensures
            final(self).wf(),
            free_post(old(self).memory, addr as int, r, final(self).memory),
            final(self).regs == old(self).regs,
            final(self).fd_list == old(self).fd_list,
            final(self).fuzz_input == old(self).fuzz_input,
    {
        self.memory.free(addr)
    }

    /// The fault that entering the JIT at the current pc raises: RISC-V instructions are 4-byte
    /// aligned, so an unaligned pc is an execution fault
    pub fn entry_fault(&self) -> (r: Option<Fault>)
        ensures
            r == (if self.reg(Register::Pc) & 3 != 0 {
                Some(Fault::ExecFault(self.reg(Register::Pc)))
            } else {
                None
            }),
    {
        let pc = self.get_reg(Register::Pc);
        if pc & 3 != 0 {
            return Some(Fault::ExecFault(pc));
        }
        None
    }

    /// Whether the run loop can act on a JIT exit with this code: a known code, and for a syscall,
    /// a supported one with a defined outcome
    pub fn exit_supported(&self, exit_code: usize) -> (r: bool)
        requires
            self.wf(),
        ensures
            r == (exit_known(exit_code) && (exit_code == 2 ==> syscall_defined(*self))),
    {
        if exit_code == 2 {
            syscall_supported(self)
        } else {
            exit_code == 1 || exit_code == 3 || exit_code == 5 || (7 <= exit_code && exit_code <= 10)
        }
    }

    /// Act on the code with which the JIT returned: perform a requested syscall, note where the
    /// snapshot code lies, and tell the run loop whether to enter the JIT again, run a hook, or end
    /// the case with a fault
    pub fn handle_exit(&mut self, exit_code: usize, reentry_pc: usize, snapshot_addr: usize) -> (r: JitExit)
        requires
            old(self).wf(),
            exit_known(exit_code),
            exit_code == 2 ==> syscall_defined(*old(self)),
        ensures
            final(self).wf(),
            r == exit_action(*old(self), exit_code, reentry_pc),
            exit_code == 2 ==> syscall_effect(
                *old(self),
                *final(self),
                if old(self).reg(Register::A7) == 93 { Some(Fault::Exit) } else { None },
            ),
            exit_code == 5 ==> *final(self) == (Emulator { snapshot_addr, ..*old(self) }),
            exit_code != 2 && exit_code != 5 ==> *final(self) == *old(self),
    {
        match exit_code {
            1 => JitExit::Reenter,
            2 => {
                match syscall(self) {
                    Some(f) => JitExit::Stop(f),
                    None => JitExit::Reenter,
                }
            },
            3 => JitExit::CallHook(reentry_pc),
            5 => {
                self.snapshot_addr = snapshot_addr;
                JitExit::Stop(Fault::Snapshot)
            },
            7 => JitExit::Stop(Fault::Timeout),
            8 => JitExit::Stop(Fault::ReadFault(reentry_pc)),
            9 => JitExit::Stop(Fault::WriteFault(reentry_pc)),
            _ => JitExit::Stop(Fault::OutOfBounds(reentry_pc)),
        }
    }

    /// Move the cursor of the file `fd`
    pub(crate) fn set_cursor(&mut self, fd: usize, cursor: usize)
        requires
            fd < old(self).fd_list@.len(),
        ensures
            files_view(final(self).fd_list@) == files_view(old(self).fd_list@).update(
                fd as int,
                (old(self).fd_list@[fd as int].ftype, file_view(old(self).fd_list@[fd as int]).1, Some(cursor)),
            ),
            final(self).memory == old(self).memory,
            final(self).regs == old(self).regs,
            final(self).fuzz_input == old(self).fuzz_input,
            final(self).custom_lib == old(self).custom_lib,
            final(self).functions == old(self).functions,
            final(self).exit_conds == old(self).exit_conds,
            final(self).snapshot_addr == old(self).snapshot_addr,
            final(self).timeout == old(self).timeout,
    {
        self.fd_list[fd].cursor = Some(cursor);
        assert(files_view(self.fd_list@) =~= files_view(old(self).fd_list@).update(
            fd as int,
            (old(self).fd_list@[fd as int].ftype, file_view(old(self).fd_list@[fd as int]).1, Some(cursor)),
        ));
    }

    /// Change the type of the file `fd`
    pub(crate) fn set_file_type(&mut self, fd: usize, ftype: FileType)
        requires
            fd < old(self).fd_list@.len(),
        ensures
            files_view(final(self).fd_list@) == files_view(old(self).fd_list@).update(
                fd as int,
                (ftype, file_view(old(self).fd_list@[fd as int]).1, old(self).fd_list@[fd as int].cursor),
            ),
            final(self).memory == old(self).memory,
            final(self).regs == old(self).regs,
            final(self).fuzz_input == old(self).fuzz_input,
            final(self).custom_lib == old(self).custom_lib,
            final(self).functions == old(self).functions,
            final(self).exit_conds == old(self).exit_conds,
            final(self).snapshot_addr == old(self).snapshot_addr,
            final(self).timeout == old(self).timeout,
    {
        self.fd_list[fd].ftype = ftype;
        assert(files_view(self.fd_list@) =~= files_view(old(self).fd_list@).update(
            fd as int,
            (ftype, file_view(old(self).fd_list@[fd as int]).1, old(self).fd_list@[fd as int].cursor),
        ));
    }

    /// Every function the emulator knows of that starts at `pc` can be lifted: its size is known,
    /// its words lie in readable and executable memory, decode to supported instructions, and no
    /// address computation of the lifter overflows
    pub open spec fn func_liftable(&self, pc: usize) -> bool {
        &&& self.functions@.contains_key(pc)
        &&& pc + 4 * n_words(self.functions@[pc].0) <= usize::MAX
        &&& forall|i: int| 0 <= i < n_words(self.functions@[pc].0) ==> #[trigger] word_liftable(self.memory, pc, i)
    }

    /// Returns the set of pc values at which a label should be created, each mapped to 0
    pub fn extract_labels(&self, pc: usize, instrs: &[Instr]) -> (r: BTreeMap<usize, u8>)
        requires
            labels_fit(pc, instrs@),
        ensures
            r@ == key_map(label_targets(pc, instrs@)),
    {
        let mut ret: BTreeMap<usize, u8> = BTreeMap::new();
        let mut cur = pc;
        let mut i: usize = 0;
        while i < instrs.len()
            invariant
                labels_fit(pc, instrs@),
                i <= instrs@.len(),
                cur == pc + 4 * i,
                ret@ == key_map(label_targets(pc, instrs@.take(i as int))),
            decreases instrs@.len() - i,
        {
            assert(targets_fit(pc_at(pc, i as int), instrs@[i as int]));
            let p = cur as i32;
            match instrs[i] {
                Instr::Jal { imm, .. } => {
                    ret.insert((p + imm) as usize, 0);
                },
                Instr::Beq { imm, .. } | Instr::Bne { imm, .. } | Instr::Blt { imm, .. }
                | Instr::Bge { imm, .. } | Instr::Bltu { imm, .. } | Instr::Bgeu { imm, .. } => {
                    ret.insert((p + imm) as usize, 0);
                    ret.insert((p + 4) as usize, 0);
                },
                _ => {},
            }
            proof {
                assert(instrs@.take(i + 1).take(i as int) =~= instrs@.take(i as int));
                assert(ret@ =~= key_map(label_targets(pc, instrs@.take(i + 1))));
            }
            i = i + 1;
            cur = cur + 4;
        }
        assert(instrs@.take(instrs@.len() as int) =~= instrs@);
        ret
    }

    /// Lift a run of instructions starting at `pc` into the intermediate representation. Every
    /// pc among `keys` gets a label at the first IR instruction lifted from it; these mark the
    /// starts of new code blocks.
    pub fn lift(&self, irgraph: &mut IRGraph, instrs: &[Instr], keys: &mut BTreeMap<usize, u8>, pc: usize)
        requires
            liftable(pc, instrs@),
        ensures
            ir_views(final(irgraph).instrs@) == ir_views(old(irgraph).instrs@) + lifted(pc, instrs@),
            final(irgraph).labels@ == labels_after(
                old(irgraph).labels@,
                old(irgraph).instrs@.len() as int,
                pc,
                instrs@,
                old(keys)@,
            ),
            instrs@.len() > 0 ==> final(irgraph).cur_pc is None,
            instrs@.len() == 0 ==> final(irgraph).cur_pc == old(irgraph).cur_pc,
            final(keys)@ == old(keys)@,
    {
        let ghost g0 = *irgraph;
        assert(lifted(pc, instrs@.take(0)) =~= Seq::<IrTagged>::empty()) by {
            reveal(lifted);
        }
        let mut cur = pc;
        let mut i: usize = 0;
        while i < instrs.len()
            invariant
                liftable(pc, instrs@),
                i <= instrs@.len(),
                cur == pc + 4 * i,
                ir_views(irgraph.instrs@) == ir_views(g0.instrs@) + lifted(pc, instrs@.take(i as int)),
                irgraph.labels@ == labels_after(g0.labels@, g0.instrs@.len() as int, pc, instrs@.take(i as int), keys@),
                i > 0 ==> irgraph.cur_pc is None,
                i == 0 ==> irgraph.cur_pc == g0.cur_pc,
                keys@ == old(keys)@,
            decreases instrs@.len() - i,
        {
            let ghost before = *irgraph;
            assert(ir_ops(pc_at(pc, i as int), instrs@[i as int]) is Some);
            irgraph.init_instr(cur);
            if keys.contains_key(&cur) {
                irgraph.set_label(cur);
            }
            lift_one(irgraph, instrs[i], cur);
            proof {
                let t = instrs@.take(i + 1);
                assert(t.take(i as int) =~= instrs@.take(i as int));
                assert(t[i as int] == instrs@[i as int]);
                assert(ir_views(before.instrs@).len() == before.instrs@.len());
                assert(ir_views(g0.instrs@).len() == g0.instrs@.len());
                reveal(lifted);
                assert(ir_views(irgraph.instrs@) =~= ir_views(g0.instrs@) + lifted(pc, t));
            }
            i = i + 1;
            cur = cur + 4;
        }
        assert(instrs@.take(instrs@.len() as int) =~= instrs@);
    }

    /// Lift the function that starts at `pc` into an intermediate representation. The function
    /// must be known, and each of its words fetchable, decodable and supported; otherwise the
    /// answer is an execution fault at `pc`.
    pub fn lift_func(&self, pc: usize) -> (r: Result<IRGraph, Fault>)
        requires
            self.wf(),
        ensures
            r is Ok <==> self.func_liftable(pc),
            r is Err ==> r == Err::<IRGraph, Fault>(Fault::ExecFault(pc)),
            r matches Ok(g) ==> {
                let instrs = func_instrs(self.memory, pc, self.functions@[pc].0);
                &&& ir_views(g.instrs@) == lifted(pc, instrs)
                &&& g.labels@ == labels_after(
                    Map::empty(),
                    0,
                    pc,
                    instrs,
                    key_map(func_keys(pc, instrs)),
                )
            },
    {
        let mut irgraph = IRGraph::default();
        let mut instrs: Vec<Instr> = Vec::new();
        let start_pc = pc;
        let size = match self.functions.get(&pc) {
            Some(v) => v.0,
            None => return Err(Fault::ExecFault(pc)),
        };
        let ghost n = n_words(size);
        let end_pc = match start_pc.checked_add(size) {
            Some(e) => e,
            None => {
                proof {
                    if self.func_liftable(pc) {
                        assert(pc + 4 * n_words(size) <= usize::MAX);
                    }
                }
                return Err(Fault::ExecFault(pc));
            },
        };
        let mut cur = start_pc;
        while cur < end_pc
            invariant
                self.wf(),
                self.functions@.contains_key(pc),
                size == self.functions@[pc].0,
                n == n_words(size),
                end_pc == pc + size,
                cur == pc + 4 * instrs@.len(),
                instrs@.len() <= n,
                cur < end_pc ==> instrs@.len() < n,
                cur >= end_pc ==> instrs@.len() == n,
                forall|k: int| 0 <= k < instrs@.len() ==> #[trigger] word_liftable(self.memory, pc, k),
                instrs@ == func_instrs(self.memory, pc, size).take(instrs@.len() as int),
            decreases n - instrs@.len(),
        {
            let k = instrs.len();
            let ghost a = pc_at(pc, k as int);
            assert(a == cur);
            let fits = match cur.checked_add(4) {
                Some(e) => e <= self.memory.memory.len(),
                None => false,
            };
            if !fits {
                proof {
                    if self.func_liftable(pc) {
                        assert(word_liftable(self.memory, pc, k as int));
                    }
                }
                return Err(Fault::ExecFault(pc));
            }
            let opcodes: u32 = match self.memory.read_at(cur, Perms::READ | Perms::EXECUTE) {
                Ok(w) => w,
                Err(_) => {
                    proof {
                        if self.func_liftable(pc) {
                            assert(word_liftable(self.memory, pc, k as int));
                        }
                    }
                    return Err(Fault::ExecFault(pc));
                },
            };
            if !is_decodable(opcodes) {
                proof {
                    if self.func_liftable(pc) {
                        assert(word_liftable(self.memory, pc, k as int));
                    }
                }
                return Err(Fault::ExecFault(pc));
            }
            let instr = match decode_instr(opcodes) {
                Ok(i) => i,
                Err(_) => {
                    proof {
                        if self.func_liftable(pc) {
                            assert(word_liftable(self.memory, pc, k as int));
                        }
                    }
                    return Err(Fault::ExecFault(pc));
                },
            };
            if !is_liftable(cur, instr) || !targets_fit_at(cur, instr) {
                proof {
                    if self.func_liftable(pc) {
                        assert(word_liftable(self.memory, pc, k as int));
                    }
                }
                return Err(Fault::ExecFault(pc));
            }
            proof {
                assert(word_liftable(self.memory, pc, k as int));
            }
            instrs.push(instr);
            proof {
                assert(instrs@ =~= func_instrs(self.memory, pc, size).take(instrs@.len() as int));
            }
            cur = match cur.checked_add(4) {
                Some(c) => c,
                None => {
                    proof {
                        if self.func_liftable(pc) {
                            assert(pc + 4 * n_words(size) <= usize::MAX);
                        }
                    }
                    return Err(Fault::ExecFault(pc));
                },
            };
        }
        let ghost fi = func_instrs(self.memory, pc, size);
        proof {
            assert(instrs@ =~= fi);
            assert(self.func_liftable(pc));
            assert forall|i: int| 0 <= i < fi.len() implies #[trigger] targets_fit(pc_at(pc, i), fi[i]) by {
                assert(word_liftable(self.memory, pc, i));
            }
            assert forall|i: int| 0 <= i < fi.len() implies (#[trigger] ir_ops(pc_at(pc, i), fi[i])) is Some by {
                assert(word_liftable(self.memory, pc, i));
            }
        }
        let mut keys = self.extract_labels(start_pc, instrs.as_slice());
        keys.insert(start_pc, 0);
        proof {
            assert(keys@ =~= key_map(func_keys(pc, fi)));
        }
        self.lift(&mut irgraph, instrs.as_slice(), &mut keys, start_pc);
        proof {
            assert(ir_views(irgraph.instrs@) =~= lifted(pc, fi));
        }
        Ok(irgraph)
    }
}

} // verus!
