use vstd::prelude::*;

use std::collections::HashMap;

use crate::registers::Register;

verus! {

broadcast use vstd::std_specs::hash::group_hash_axioms;

/// Value used to specify both inputs and outputs for intermediate representation
#[derive(Debug, Clone, Copy, PartialEq, Eq, PartialOrd, Ord, Hash)]
pub enum Val {
    Reg(Register),
    Imm(i32),
    Imm64(i64),
}

/// The operations of the intermediate representation
#[derive(Debug, Copy, Clone, Eq, PartialEq)]
pub enum Operation {
    Undefined,
    Jmp(usize),
    JmpOff(i32),
    Branch(usize, usize),
    Syscall,
    Store,
    Load,
    Mov,
    Add,
    Sub,
    And,
    Or,
    Xor,
    Shl,
    Shr,
    Sar,
    Slt,
    Nop,
}

impl Default for Operation {
    fn default() -> (r: Self)
        ensures
            r == Operation::Undefined,
    {
        Operation::Undefined
    }
}

/// These are used to give instructions extra information such as signed/unsigned or the type of
/// comparison for branch instructions.
#[derive(Debug, Clone, Copy)]
pub struct Flag;

#[allow(non_upper_case_globals)]
impl Flag {
    pub const NoFlag: u16 = 0x0;
    pub const Signed: u16 = 0x1;
    pub const Unsigned: u16 = 0x2;
    pub const Equal: u16 = 0x4;
    pub const NEqual: u16 = 0x8;
    pub const Less: u16 = 0x10;
    pub const Greater: u16 = 0x20;
    pub const Byte: u16 = 0x40;
    pub const Word: u16 = 0x80;
    pub const DWord: u16 = 0x100;
    pub const QWord: u16 = 0x200;
}

/// The instructions used in the IR. Layed out in a way that is efficient memory wise and lets us
/// easily determine if the instruction has input/output fields.
#[derive(Debug, Clone, Default)]
pub struct Instruction {
    pub op: Operation,
    pub i_reg: Vec<Val>,
    pub o_reg: Option<Register>,
    pub flags: u16,
    pub pc: Option<usize>,
}

impl Instruction {
    /// An exact copy of this instruction
    pub fn duplicate(&self) -> (r: Instruction)
        ensures
            ir_view(r) == ir_view(*self),
    {
        let i_reg = self.i_reg.clone();
        assert(i_reg@ =~= self.i_reg@);
        Instruction { op: self.op, i_reg, o_reg: self.o_reg, flags: self.flags, pc: self.pc }
    }

    /// The instruction transfers control to a fixed target
    pub fn is_jump(&self) -> (r: bool)
        ensures
            r == (self.op is Jmp || self.op is Branch),
    {
        matches!(self.op, Operation::Jmp(_) | Operation::Branch(..))
    }
}

/// Basic wrapper around instructions that keeps track of cur_pc.
#[derive(Debug)]
pub struct IRGraph {
    /// List of all instructions
    pub instrs: Vec<Instruction>,

    /// Labels indicating controlflow (pc -> index of the first instruction of the block)
    pub labels: HashMap<usize, usize>,

    /// Since multiple IR instructions can be mapped to a single guest instruction, this is used
    /// to only assign the pc to the first IR-instruction generated for a guest instruction.
    pub cur_pc: Option<usize>,
}

/// An IR instruction as plain values: operation, inputs, output, flags and originating pc.
pub open spec fn ir_view(i: Instruction) -> (Operation, Seq<Val>, Option<Register>, u16, Option<usize>) {
    (i.op, i.i_reg@, i.o_reg, i.flags, i.pc)
}

/// A list of IR instructions as plain values.
pub open spec fn ir_views(s: Seq<Instruction>) -> Seq<(Operation, Seq<Val>, Option<Register>, u16, Option<usize>)> {
    s.map_values(|i: Instruction| ir_view(i))
}

/// `new` is `old` with one more instruction, made of the given parts and of the pending pc of
/// `old`, which it consumes.
pub open spec fn appended(
    old: IRGraph,
    new: IRGraph,
    op: Operation,
    ins: Seq<Val>,
    out: Option<Register>,
    flags: u16,
) -> bool {
    &&& new.instrs@.len() == old.instrs@.len() + 1
    &&& new.instrs@.subrange(0, old.instrs@.len() as int) == old.instrs@
    &&& ir_view(new.instrs@.last()) == (op, ins, out, flags, old.cur_pc)
    &&& ir_views(new.instrs@) == ir_views(old.instrs@).push((op, ins, out, flags, old.cur_pc))
    &&& new.labels@ == old.labels@
    &&& new.cur_pc is None
}

/// The pcs at which a control flow block starts: that of the first instruction, and every pc of an
/// instruction that carries a label.
pub open spec fn leader_pcs(instrs: Seq<Instruction>, labels: Map<usize, usize>) -> Set<usize> {
    Set::new(
        |p: usize|
            (instrs.len() > 0 && instrs[0].pc == Some(p)) || (labels.contains_key(p) && exists|i: int|
                0 <= i < instrs.len() && #[trigger] instrs[i].pc == Some(p)),
    )
}

impl Default for IRGraph {
    fn default() -> (r: Self)
        ensures
            r.instrs@.len() == 0,
            r.labels@ == Map::<usize, usize>::empty(),
            r.cur_pc is None,
    {
        Self::new()
    }
}

/// A one-element operand list
fn single(v: Val) -> (r: Vec<Val>)
    ensures
        r@ == seq![v],
{
    let mut r = Vec::new();
    r.push(v);
    r
}

impl IRGraph {
    pub fn new() -> (r: Self)
        ensures
            r.instrs@.len() == 0,
            r.labels@ == Map::<usize, usize>::empty(),
            r.cur_pc is None,
    {
        IRGraph { instrs: Vec::new(), labels: HashMap::new(), cur_pc: None }
    }

    /// Initialize the cur_pc variable which is used to set the pc value in the IR instructions
    pub fn init_instr(&mut self, pc: usize)
        ensures
            final(self).instrs@ == old(self).instrs@,
            final(self).labels@ == old(self).labels@,
            final(self).cur_pc == Some(pc),
    {
        self.cur_pc = Some(pc);
    }

    /// Insert a label into the irgraph using the current pc
    pub fn set_label(&mut self, pc: usize)
        ensures
            final(self).instrs@ == old(self).instrs@,
            final(self).labels@ == old(self).labels@.insert(pc, old(self).instrs@.len() as usize),
            final(self).cur_pc == old(self).cur_pc,
    {
        let n = self.instrs.len();
        self.labels.insert(pc, n);
    }

    /// Append one instruction that carries the pending pc, and consume that pc
    fn push_instr(&mut self, op: Operation, i_reg: Vec<Val>, o_reg: Option<Register>, flags: u16)
        ensures
            appended(*old(self), *final(self), op, i_reg@, o_reg, flags),
    {
        let pc = self.cur_pc;
        self.instrs.push(Instruction { op, i_reg, o_reg, flags, pc });
        self.cur_pc = None;
        assert(self.instrs@.subrange(0, old(self).instrs@.len() as int) =~= old(self).instrs@);
        assert(ir_views(self.instrs@) =~= ir_views(old(self).instrs@).push(
            (op, i_reg@, o_reg, flags, old(self).cur_pc),
        ));
    }

    /// r1 = imm
    pub fn movi(&mut self, r1: Register, imm: i32, flag: u16) -> (r: Register)
        ensures
            appended(*old(self), *final(self), Operation::Mov, seq![Val::Imm(imm)], Some(r1), flag),
            r == r1,
    {
        self.push_instr(Operation::Mov, single(Val::Imm(imm)), Some(r1), flag);
        r1
    }

    /// r1 = imm (64-bit immediate)
    pub fn movi64(&mut self, r1: Register, imm: i64, flag: u16) -> (r: Register)
        ensures
            appended(*old(self), *final(self), Operation::Mov, seq![Val::Imm64(imm)], Some(r1), flag),
            r == r1,
    {
        self.push_instr(Operation::Mov, single(Val::Imm64(imm)), Some(r1), flag);
        r1
    }

    /// r1 = r2
    pub fn mov(&mut self, r1: Register, r2: Register, flag: u16) -> (r: Register)
        ensures
            appended(*old(self), *final(self), Operation::Mov, seq![Val::Reg(r2)], Some(r1), flag),
            r == r1,
    {
        self.push_instr(Operation::Mov, single(Val::Reg(r2)), Some(r1), flag);
        r1
    }

    /// Jmp addr
    pub fn jmp(&mut self, addr: usize)
        ensures
            appended(*old(self), *final(self), Operation::Jmp(addr), Seq::<Val>::empty(), None, Flag::NoFlag),
    {
        self.push_instr(Operation::Jmp(addr), Vec::new(), None, Flag::NoFlag);
    }

    /// Jmp (r1 + addr)
    pub fn jmp_offset(&mut self, r1: Register, addr: i32)
        ensures
            appended(*old(self), *final(self), Operation::JmpOff(addr), seq![Val::Reg(r1)], None, Flag::NoFlag),
    {
        self.push_instr(Operation::JmpOff(addr), single(Val::Reg(r1)), None, Flag::NoFlag);
    }

    /// Branch to either false_part or true_part, flags determine what kind of compare instruction
    /// is supposed to be inserted
    pub fn branch(&mut self, r2: Register, r3: Register, true_part: usize, false_part: usize, flags: u16)
        ensures
            appended(*old(self), *final(self), Operation::Branch(true_part, false_part), seq![Val::Reg(r2), Val::Reg(r3)], None, flags),
    {
        self.push_instr(Operation::Branch(true_part, false_part), vec![Val::Reg(r2), Val::Reg(r3)], None, flags);
    }

    /// r1 = [r2 + off]
    pub fn load(&mut self, r1: Register, r2: Register, off: i32, flags: u16) -> (r: Register)
        ensures
            appended(*old(self), *final(self), Operation::Load, seq![Val::Reg(r2), Val::Imm(off)], Some(r1), flags),
            r == r1,
    {
        self.push_instr(Operation::Load, vec![Val::Reg(r2), Val::Imm(off)], Some(r1), flags);
        r1
    }

    /// [r1 + off] = r2
    pub fn store(&mut self, r1: Register, r2: Register, off: i32, flags: u16)
        ensures
            appended(*old(self), *final(self), Operation::Store, seq![Val::Reg(r1), Val::Reg(r2), Val::Imm(off)], None, flags),
    {
        self.push_instr(Operation::Store, vec![Val::Reg(r1), Val::Reg(r2), Val::Imm(off)], None, flags);
    }

    /// Set r1 if r2 is less than r3
    pub fn slt(&mut self, r1: Register, r2: Register, r3: Register, flags: u16) -> (r: Register)
        ensures
            appended(*old(self), *final(self), Operation::Slt, seq![Val::Reg(r2), Val::Reg(r3)], Some(r1), flags),
            r == r1,
    {
        self.push_instr(Operation::Slt, vec![Val::Reg(r2), Val::Reg(r3)], Some(r1), flags);
        r1
    }

    /// Set r1 if r2 is less than the immediate
    pub fn slti(&mut self, r1: Register, r2: Register, imm: i32, flags: u16) -> (r: Register)
        ensures
            appended(*old(self), *final(self), Operation::Slt, seq![Val::Reg(r2), Val::Imm(imm)], Some(r1), flags),
            r == r1,
    {
        self.push_instr(Operation::Slt, vec![Val::Reg(r2), Val::Imm(imm)], Some(r1), flags);
        r1
    }

    /// r1 = r2 + r3
    pub fn add(&mut self, r1: Register, r2: Register, r3: Register, flags: u16) -> (r: Register)
        ensures
            appended(*old(self), *final(self), Operation::Add, seq![Val::Reg(r2), Val::Reg(r3)], Some(r1), flags),
            r == r1,
    {
        self.push_instr(Operation::Add, vec![Val::Reg(r2), Val::Reg(r3)], Some(r1), flags);
        r1
    }

    /// r1 = r2 + imm
    pub fn addi(&mut self, r1: Register, r2: Register, imm: i32, flags: u16) -> (r: Register)
        ensures
            appended(*old(self), *final(self), Operation::Add, seq![Val::Reg(r2), Val::Imm(imm)], Some(r1), flags),
            r == r1,
    {
        self.push_instr(Operation::Add, vec![Val::Reg(r2), Val::Imm(imm)], Some(r1), flags);
        r1
    }

    /// r1 = r2 - r3
    pub fn sub(&mut self, r1: Register, r2: Register, r3: Register, flags: u16) -> (r: Register)
        ensures
            appended(*old(self), *final(self), Operation::Sub, seq![Val::Reg(r2), Val::Reg(r3)], Some(r1), flags),
            r == r1,
    {
        self.push_instr(Operation::Sub, vec![Val::Reg(r2), Val::Reg(r3)], Some(r1), flags);
        r1
    }

    /// r1 = r2 - imm
    pub fn subi(&mut self, r1: Register, r2: Register, imm: i32, flags: u16) -> (r: Register)
        ensures
            appended(*old(self), *final(self), Operation::Sub, seq![Val::Reg(r2), Val::Imm(imm)], Some(r1), flags),
            r == r1,
    {
        self.push_instr(Operation::Sub, vec![Val::Reg(r2), Val::Imm(imm)], Some(r1), flags);
        r1
    }

    /// r1 = r2 ^ r3
    pub fn xor(&mut self, r1: Register, r2: Register, r3: Register) -> (r: Register)
        ensures
            appended(*old(self), *final(self), Operation::Xor, seq![Val::Reg(r2), Val::Reg(r3)], Some(r1), Flag::NoFlag),
            r == r1,
    {
        self.push_instr(Operation::Xor, vec![Val::Reg(r2), Val::Reg(r3)], Some(r1), Flag::NoFlag);
        r1
    }

    /// r1 = r2 ^ imm
    pub fn xori(&mut self, r1: Register, r2: Register, imm: i32) -> (r: Register)
        ensures
            appended(*old(self), *final(self), Operation::Xor, seq![Val::Reg(r2), Val::Imm(imm)], Some(r1), Flag::NoFlag),
            r == r1,
    {
        self.push_instr(Operation::Xor, vec![Val::Reg(r2), Val::Imm(imm)], Some(r1), Flag::NoFlag);
        r1
    }

    /// r1 = r2 | r3
    pub fn or(&mut self, r1: Register, r2: Register, r3: Register) -> (r: Register)
        ensures
            appended(*old(self), *final(self), Operation::Or, seq![Val::Reg(r2), Val::Reg(r3)], Some(r1), Flag::NoFlag),
            r == r1,
    {
        self.push_instr(Operation::Or, vec![Val::Reg(r2), Val::Reg(r3)], Some(r1), Flag::NoFlag);
        r1
    }

    /// r1 = r2 | imm
    pub fn ori(&mut self, r1: Register, r2: Register, imm: i32) -> (r: Register)
        ensures
            appended(*old(self), *final(self), Operation::Or, seq![Val::Reg(r2), Val::Imm(imm)], Some(r1), Flag::NoFlag),
            r == r1,
    {
        self.push_instr(Operation::Or, vec![Val::Reg(r2), Val::Imm(imm)], Some(r1), Flag::NoFlag);
        r1
    }

    /// r1 = r2 & r3
    pub fn and(&mut self, r1: Register, r2: Register, r3: Register) -> (r: Register)
        ensures
            appended(*old(self), *final(self), Operation::And, seq![Val::Reg(r2), Val::Reg(r3)], Some(r1), Flag::NoFlag),
            r == r1,
    {
        self.push_instr(Operation::And, vec![Val::Reg(r2), Val::Reg(r3)], Some(r1), Flag::NoFlag);
        r1
    }

    /// r1 = r2 & imm
    pub fn andi(&mut self, r1: Register, r2: Register, imm: i32) -> (r: Register)
        ensures
            appended(*old(self), *final(self), Operation::And, seq![Val::Reg(r2), Val::Imm(imm)], Some(r1), Flag::NoFlag),
            r == r1,
    {
        self.push_instr(Operation::And, vec![Val::Reg(r2), Val::Imm(imm)], Some(r1), Flag::NoFlag);
        r1
    }

    /// r1 = r2 << r3
    pub fn shl(&mut self, r1: Register, r2: Register, r3: Register, flags: u16) -> (r: Register)
        ensures
            appended(*old(self), *final(self), Operation::Shl, seq![Val::Reg(r2), Val::Reg(r3)], Some(r1), flags),
            r == r1,
    {
        self.push_instr(Operation::Shl, vec![Val::Reg(r2), Val::Reg(r3)], Some(r1), flags);
        r1
    }

    /// r1 = r2 << imm
    pub fn shli(&mut self, r1: Register, r2: Register, imm: i32, flags: u16) -> (r: Register)
        ensures
            appended(*old(self), *final(self), Operation::Shl, seq![Val::Reg(r2), Val::Imm(imm)], Some(r1), flags),
            r == r1,
    {
        self.push_instr(Operation::Shl, vec![Val::Reg(r2), Val::Imm(imm)], Some(r1), flags);
        r1
    }

    /// r1 = r2 >> r3 (Logical)
    pub fn shr(&mut self, r1: Register, r2: Register, r3: Register, flags: u16) -> (r: Register)
        ensures
            appended(*old(self), *final(self), Operation::Shr, seq![Val::Reg(r2), Val::Reg(r3)], Some(r1), flags),
            r == r1,
    {
        self.push_instr(Operation::Shr, vec![Val::Reg(r2), Val::Reg(r3)], Some(r1), flags);
        r1
    }

    /// r1 = r2 >> imm (Logical)
    pub fn shri(&mut self, r1: Register, r2: Register, imm: i32, flags: u16) -> (r: Register)
        ensures
            appended(*old(self), *final(self), Operation::Shr, seq![Val::Reg(r2), Val::Imm(imm)], Some(r1), flags),
            r == r1,
    {
        self.push_instr(Operation::Shr, vec![Val::Reg(r2), Val::Imm(imm)], Some(r1), flags);
        r1
    }

    /// r1 = r2 >> r3 (Arithmetic)
    pub fn sar(&mut self, r1: Register, r2: Register, r3: Register, flags: u16) -> (r: Register)
        ensures
            appended(*old(self), *final(self), Operation::Sar, seq![Val::Reg(r2), Val::Reg(r3)], Some(r1), flags),
            r == r1,
    {
        self.push_instr(Operation::Sar, vec![Val::Reg(r2), Val::Reg(r3)], Some(r1), flags);
        r1
    }

    /// r1 = r2 >> imm (Arithmetic)
    pub fn sari(&mut self, r1: Register, r2: Register, imm: i32, flags: u16) -> (r: Register)
        ensures
            appended(*old(self), *final(self), Operation::Sar, seq![Val::Reg(r2), Val::Imm(imm)], Some(r1), flags),
            r == r1,
    {
        self.push_instr(Operation::Sar, vec![Val::Reg(r2), Val::Imm(imm)], Some(r1), flags);
        r1
    }

    /// Syscall instruction
    pub fn syscall(&mut self)
        ensures
            appended(*old(self), *final(self), Operation::Syscall, Seq::<Val>::empty(), None, Flag::NoFlag),
    {
        self.push_instr(Operation::Syscall, Vec::new(), None, Flag::NoFlag);
    }

    /// Return a hashmap that tracks the starting pc of each cfg block of this function
    pub fn get_leaders(&self) -> (r: HashMap<usize, usize>)
        requires
            self.instrs@.len() > 0,
            self.instrs@[0].pc is Some,
        ensures
            r@.dom() == leader_pcs(self.instrs@, self.labels@),
            forall|p: usize| #[trigger] r@.contains_key(p) ==> r@[p] == 0,
    {
        let mut leader_set: HashMap<usize, usize> = HashMap::new();

        // First instruction is always a block-leader
        let first = match self.instrs[0].pc {
            Some(p) => p,
            None => 0,
        };
        leader_set.insert(first, 0);

        // Next insert all labels that indicate the start of a block
        let n = self.instrs.len();
        let mut i: usize = 0;
        while i < n
            invariant
                n == self.instrs@.len(),
                n > 0,
                i <= n,
                self.instrs@[0].pc == Some(first),
                leader_set@.dom() == Set::new(
                    |p: usize|
                        p == first || (self.labels@.contains_key(p) && exists|j: int|
                            0 <= j < i && #[trigger] self.instrs@[j].pc == Some(p)),
                ),
                forall|p: usize| #[trigger] leader_set@.contains_key(p) ==> leader_set@[p] == 0,
            decreases n - i,
        {
            if let Some(pc) = self.instrs[i].pc {
                if self.labels.contains_key(&pc) {
                    leader_set.insert(pc, 0);
                }
            }
            proof {
                assert(leader_set@.dom() =~= Set::new(
                    |p: usize|
                        p == first || (self.labels@.contains_key(p) && exists|j: int|
                            0 <= j < i + 1 && #[trigger] self.instrs@[j].pc == Some(p)),
                )) by {
                    assert forall|p: usize| #[trigger] leader_set@.dom().contains(p) implies (p == first || (self.labels@.contains_key(p) && exists|j: int|
                            0 <= j < i + 1 && #[trigger] self.instrs@[j].pc == Some(p))) by {
                        if p != first && !(self.instrs@[i as int].pc == Some(p)) {
                            let j = choose|j: int| 0 <= j < i && #[trigger] self.instrs@[j].pc == Some(p);
                        }
                    }
                    assert forall|p: usize| (p == first || (self.labels@.contains_key(p) && exists|j: int|
                            0 <= j < i + 1 && #[trigger] self.instrs@[j].pc == Some(p))) implies #[trigger] leader_set@.dom().contains(p) by {
                        if p != first {
                            let j = choose|j: int| 0 <= j < i + 1 && #[trigger] self.instrs@[j].pc == Some(p);
                            if j < i {
                                assert(exists|j: int| 0 <= j < i && #[trigger] self.instrs@[j].pc == Some(p));
                            }
                        }
                    }
                }
            }
            i = i + 1;
        }
        proof {
            assert(leader_set@.dom() =~= leader_pcs(self.instrs@, self.labels@)) by {
                assert forall|p: usize| #[trigger] leader_pcs(self.instrs@, self.labels@).contains(p) implies leader_set@.dom().contains(p) by {
                    if p != first {
                        let j = choose|j: int| 0 <= j < self.instrs@.len() && #[trigger] self.instrs@[j].pc == Some(p);
                    }
                }
            }
        }
        leader_set
    }
}

} // verus!
