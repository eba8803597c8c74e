use vstd::prelude::*;

use std::collections::BTreeSet;

use crate::irgraph::{IRGraph, Instruction, Operation, Val, ir_view, ir_views};
use crate::registers::{NUMREGS, Register, lemma_reg_of_id, reg_of};

verus! {

broadcast use vstd::std_specs::hash::group_hash_axioms;

/// Struct used to represent blocks of code in the program according to the CFG representation
#[derive(Debug)]
pub struct Block {
    /// Index of the block in CFG
    pub index: usize,
    /// First instruction in the block
    pub start: usize,
    /// Final instruction in the block
    pub end: usize,
    /// Label of the current block (indicates start pc)
    pub label: usize,
    /// Phi functions added to the block
    pub phi_funcs: Vec<Instruction>,
    /// Registers alive at start of block (used for regalloc)
    pub live_in: BTreeSet<Register>,
    /// Registers alive at end of block (used for regalloc)
    pub live_out: BTreeSet<Register>,
    /// CFG successor of this block
    pub succ: Vec<usize>,
    /// CFG predecessors of this block
    pub pred: Vec<usize>,
}

/// Some instruction of `s` reads register `r`
pub open spec fn uses_reg(s: Seq<Instruction>, r: Register) -> bool {
    exists|i: int, m: int| 0 <= i < s.len() && 0 <= m < s[i].i_reg@.len() && #[trigger] s[i].i_reg@[m] == Val::Reg(r)
}

/// Some instruction of `s` writes register `r`
pub open spec fn defs_reg(s: Seq<Instruction>, r: Register) -> bool {
    exists|i: int| 0 <= i < s.len() && #[trigger] s[i].o_reg == Some(r)
}

/// Input `m` of instruction `i` reads `r`, and comes before input `j` of instruction `k`
/// (counting from instruction `lo`)
pub open spec fn used_at(s: Seq<Instruction>, lo: int, k: int, j: int, r: Register, i: int, m: int) -> bool {
    &&& lo <= i <= k
    &&& i < s.len()
    &&& 0 <= m < s[i].i_reg@.len()
    &&& (i < k || m < j)
    &&& s[i].i_reg@[m] == Val::Reg(r)
}

/// Some input before input `j` of instruction `k`, from instruction `lo` on, reads `r`
pub open spec fn used_before(s: Seq<Instruction>, lo: int, k: int, j: int, r: Register) -> bool {
    exists|i: int, m: int| #[trigger] used_at(s, lo, k, j, r, i, m)
}

/// The block's range of instructions lies within `instrs`
pub open spec fn block_fits(b: &Block, instrs: Seq<Instruction>) -> bool {
    b.start <= b.end + 1 && b.end < instrs.len()
}

/// The instructions of the block
pub open spec fn block_instrs(b: &Block, instrs: Seq<Instruction>) -> Seq<Instruction> {
    instrs.subrange(b.start as int, b.end + 1)
}

impl Block {
    /// Return new block with given start, end & index
    pub fn new(start: usize, end: usize, index: usize) -> (r: Self)
        ensures
            r.index == index,
            r.start == start,
            r.end == end,
            r.label == 0,
            r.phi_funcs@.len() == 0,
            r.live_in@ == Set::<Register>::empty(),
            r.live_out@ == Set::<Register>::empty(),
            r.succ@.len() == 0,
            r.pred@.len() == 0,
    {
        Self {
            index,
            start,
            end,
            label: 0,
            phi_funcs: Vec::new(),
            live_in: BTreeSet::new(),
            live_out: BTreeSet::new(),
            succ: Vec::new(),
            pred: Vec::new(),
        }
    }

    /// The instructions used in a block
    pub fn instrs(&self, instrs: &[Instruction]) -> (r: Vec<Instruction>)
        requires
            block_fits(self, instrs@),
        ensures
            ir_views(r@) == ir_views(block_instrs(self, instrs@)),
    {
        let n = instrs.len();
        let hi = self.end + 1;
        let mut out: Vec<Instruction> = Vec::new();
        let mut i = self.start;
        while i < hi
            invariant
                n == instrs@.len(),
                hi == self.end + 1,
                block_fits(self, instrs@),
                self.start <= i <= hi,
                out@.len() == i - self.start,
                forall|k: int| 0 <= k < out@.len() ==> #[trigger] ir_view(out@[k]) == ir_view(instrs@[self.start + k]),
            decreases hi - i,
        {
            out.push(instrs[i].duplicate());
            i = i + 1;
        }
        assert(ir_views(out@) =~= ir_views(block_instrs(self, instrs@)));
        out
    }

    /// The instructions used in a block in reverse, the last one first (used by regalloc)
    pub fn rev_instrs(&self, instrs: &[Instruction]) -> (r: Vec<Instruction>)
        requires
            block_fits(self, instrs@),
        ensures
            r@.len() == self.end + 1 - self.start,
            forall|k: int| 0 <= k < r@.len() ==> #[trigger] ir_view(r@[k]) == ir_view(instrs@[self.end - k]),
    {
        let n = instrs.len();
        let mut rev: Vec<Instruction> = Vec::new();
        let mut i = self.end + 1;
        while i > self.start
            invariant
                n == instrs@.len(),
                block_fits(self, instrs@),
                self.start <= i <= self.end + 1,
                rev@.len() == self.end + 1 - i,
                forall|k: int| 0 <= k < rev@.len() ==> #[trigger] ir_view(rev@[k]) == ir_view(instrs@[self.end - k]),
            decreases i - self.start,
        {
            i = i - 1;
            rev.push(instrs[i].duplicate());
        }
        rev
    }

    /// The set of registers used as inputs in a given block, each once, in the order of their
    /// first use
    pub fn regs_used(&self, instrs: &[Instruction]) -> (r: Vec<Register>)
        requires
            block_fits(self, instrs@),
        ensures
            r@.no_duplicates(),
            forall|x: Register| r@.contains(x) <==> uses_reg(block_instrs(self, instrs@), x),
    {
        let ghost body = block_instrs(self, instrs@);
        let n = instrs.len();
        let hi = self.end + 1;
        let mut out: Vec<Register> = Vec::new();
        let mut k = self.start;
        while k < hi
            invariant
                hi == self.end + 1,
                block_fits(self, instrs@),
                body == block_instrs(self, instrs@),
                self.start <= k <= hi,
                out@.no_duplicates(),
                forall|x: Register| out@.contains(x) <==> used_before(instrs@, self.start as int, k as int, 0, x),
            decreases hi - k,
        {
            let mut j: usize = 0;
            while j < instrs[k].i_reg.len()
                invariant
                    hi == self.end + 1,
                    block_fits(self, instrs@),
                    self.start <= k < hi,
                    j <= instrs@[k as int].i_reg@.len(),
                    out@.no_duplicates(),
                    forall|x: Register| out@.contains(x) <==> used_before(instrs@, self.start as int, k as int, j as int, x),
                decreases instrs@[k as int].i_reg@.len() - j,
            {
                let v = instrs[k].i_reg[j];
                let ghost out0 = out@;
                let ghost j0 = j as int;
                if let Val::Reg(x) = v {
                    let mut found = false;
                    let mut m: usize = 0;
                    while m < out.len()
                        invariant
                            m <= out@.len(),
                            found <==> exists|q: int| 0 <= q < m && out@[q] == x,
                        decreases out@.len() - m,
                    {
                        if out[m] == x {
                            found = true;
                        }
                        m = m + 1;
                    }
                    let ghost before = out@;
                    assert(m == before.len());
                    assert(found <==> before.contains(x));
                    if !found {
                        out.push(x);
                    }
                    proof {
                        assert forall|y: Register| out@.contains(y) <==> (before.contains(y) || y == x) by {
                            if !found {
                                assert(out@ == before.push(x));
                                if out@.contains(y) {
                                    let q = choose|q: int| 0 <= q < out@.len() && out@[q] == y;
                                    if q < before.len() {
                                        assert(before[q] == y);
                                    }
                                }
                                if y == x {
                                    assert(out@[before.len() as int] == y);
                                }
                                if before.contains(y) {
                                    let q = choose|q: int| 0 <= q < before.len() && before[q] == y;
                                    assert(out@[q] == y);
                                }
                            } else {
                                assert(out@ == before);
                            }
                        }
                        assert(before == out0);
                        assert forall|y: Register| out@.contains(y) <==> (out0.contains(y) || v == Val::Reg(y)) by {
                            assert(out@.contains(y) <==> (before.contains(y) || y == x));
                            assert(v == Val::Reg(x));
                            if v == Val::Reg(y) {
                                assert(y == x);
                            }
                        }
                    }
                } else {
                    assert forall|y: Register| out@.contains(y) <==> (out0.contains(y) || v == Val::Reg(y)) by {
                        assert(out@ == out0);
                    }
                }
                j = j + 1;
                proof {
                    assert forall|y: Register| out@.contains(y) <==> used_before(instrs@, self.start as int, k as int, j as int, y) by {
                        lemma_used_step(instrs@, self.start as int, k as int, j0, y);
                        assert(out0.contains(y) <==> used_before(instrs@, self.start as int, k as int, j0, y));
                    }
                }
            }
            proof {
                assert forall|y: Register| out@.contains(y) <==> used_before(instrs@, self.start as int, k + 1, 0, y) by {
                    lemma_used_next(instrs@, self.start as int, k as int, y);
                }
            }
            k = k + 1;
        }
        assert forall|y: Register| used_before(instrs@, self.start as int, hi as int, 0, y) <==> uses_reg(body, y) by {
            if used_before(instrs@, self.start as int, hi as int, 0, y) {
                let (i2, m2) = choose|i2: int, m2: int| used_at(instrs@, self.start as int, hi as int, 0, y, i2, m2);
                assert(body[i2 - self.start] == instrs@[i2]);
                assert(body[i2 - self.start].i_reg@[m2] == Val::Reg(y));
            }
            if uses_reg(body, y) {
                let (i2, m2) = choose|i2: int, m2: int| 0 <= i2 < body.len() && 0 <= m2 < body[i2].i_reg@.len()
                    && #[trigger] body[i2].i_reg@[m2] == Val::Reg(y);
                assert(body[i2] == instrs@[i2 + self.start]);
                assert(used_at(instrs@, self.start as int, hi as int, 0, y, i2 + self.start, m2));
            }
        }
        out
    }

    /// The set of registers defined in a given block, each once, in the order of their first
    /// definition
    pub fn regs_def(&self, instrs: &[Instruction]) -> (r: Vec<Register>)
        requires
            block_fits(self, instrs@),
        ensures
            r@.no_duplicates(),
            forall|x: Register| r@.contains(x) <==> defs_reg(block_instrs(self, instrs@), x),
    {
        let ghost body = block_instrs(self, instrs@);
        let n = instrs.len();
        let hi = self.end + 1;
        let mut out: Vec<Register> = Vec::new();
        let mut k = self.start;
        while k < hi
            invariant
                n == instrs@.len(),
                hi == self.end + 1,
                block_fits(self, instrs@),
                self.start <= k <= hi,
                out@.no_duplicates(),
                forall|x: Register| out@.contains(x) <==> exists|i: int| self.start <= i < k && #[trigger] instrs@[i].o_reg == Some(x),
            decreases hi - k,
        {
            let ghost before = out@;
            if let Some(x) = instrs[k].o_reg {
                let mut found = false;
                let mut m: usize = 0;
                while m < out.len()
                    invariant
                        m <= out@.len(),
                        found <==> exists|q: int| 0 <= q < m && out@[q] == x,
                    decreases out@.len() - m,
                {
                    if out[m] == x {
                        found = true;
                    }
                    m = m + 1;
                }
                assert(found <==> before.contains(x));
                if !found {
                    out.push(x);
                }
                proof {
                    assert forall|y: Register| out@.contains(y) <==> (before.contains(y) || y == x) by {
                        if !found {
                            assert(out@ == before.push(x));
                            if out@.contains(y) {
                                let q = choose|q: int| 0 <= q < out@.len() && out@[q] == y;
                                if q < before.len() {
                                    assert(before[q] == y);
                                }
                            }
                            if y == x {
                                assert(out@[before.len() as int] == y);
                            }
                            if before.contains(y) {
                                let q = choose|q: int| 0 <= q < before.len() && before[q] == y;
                                assert(out@[q] == y);
                            }
                        }
                    }
                }
            }
            proof {
                assert forall|y: Register| out@.contains(y) <==> exists|i: int| self.start <= i < k + 1 && #[trigger] instrs@[i].o_reg
                    == Some(y) by {
                    if exists|i: int| self.start <= i < k + 1 && #[trigger] instrs@[i].o_reg == Some(y) {
                        let i = choose|i: int| self.start <= i < k + 1 && #[trigger] instrs@[i].o_reg == Some(y);
                        if i < k {
                            assert(before.contains(y));
                        }
                    }
                    if before.contains(y) {
                        let i = choose|i: int| self.start <= i < k && #[trigger] instrs@[i].o_reg == Some(y);
                        assert(self.start <= i < k + 1);
                    }
                    if instrs@[k as int].o_reg == Some(y) {
                        assert(instrs@[k as int].o_reg == Some(y));
                    }
                }
            }
            k = k + 1;
        }
        assert forall|y: Register| (exists|i: int| self.start <= i < hi && #[trigger] instrs@[i].o_reg == Some(y)) <==> defs_reg(body, y) by {
            if exists|i: int| self.start <= i < hi && #[trigger] instrs@[i].o_reg == Some(y) {
                let i = choose|i: int| self.start <= i < hi && #[trigger] instrs@[i].o_reg == Some(y);
                assert(body[i - self.start] == instrs@[i]);
            }
            if defs_reg(body, y) {
                let i = choose|i: int| 0 <= i < body.len() && #[trigger] body[i].o_reg == Some(y);
                assert(body[i] == instrs@[i + self.start]);
            }
        }
        out
    }
}

/// Reading one more input of instruction `k` adds that input's register
proof fn lemma_used_step(s: Seq<Instruction>, lo: int, k: int, j: int, y: Register)
    requires
        lo <= k < s.len(),
        0 <= j < s[k].i_reg@.len(),
    ensures
        used_before(s, lo, k, j + 1, y) <==> (used_before(s, lo, k, j, y) || s[k].i_reg@[j] == Val::Reg(y)),
{
    if used_before(s, lo, k, j + 1, y) {
        let jn = j + 1;
        let (i2, m2) = choose|i2: int, m2: int| used_at(s, lo, k, jn, y, i2, m2);
        if i2 < k || m2 < j {
            assert(used_at(s, lo, k, j, y, i2, m2));
        }
    }
    if used_before(s, lo, k, j, y) {
        let (i2, m2) = choose|i2: int, m2: int| used_at(s, lo, k, j, y, i2, m2);
        assert(used_at(s, lo, k, j + 1, y, i2, m2));
    }
    if s[k].i_reg@[j] == Val::Reg(y) {
        assert(used_at(s, lo, k, j + 1, y, k, j));
    }
}

/// Having read all inputs of instruction `k` is having read up to instruction `k + 1`
proof fn lemma_used_next(s: Seq<Instruction>, lo: int, k: int, y: Register)
    requires
        lo <= k < s.len(),
    ensures
        used_before(s, lo, k + 1, 0, y) <==> used_before(s, lo, k, s[k].i_reg@.len() as int, y),
{
    let len = s[k].i_reg@.len() as int;
    if used_before(s, lo, k + 1, 0, y) {
        let kn = k + 1;
        let (i2, m2) = choose|i2: int, m2: int| used_at(s, lo, kn, 0, y, i2, m2);
        assert(used_at(s, lo, k, len, y, i2, m2));
    }
    if used_before(s, lo, k, len, y) {
        let (i2, m2) = choose|i2: int, m2: int| used_at(s, lo, k, len, y, i2, m2);
        assert(used_at(s, lo, k + 1, 0, y, i2, m2));
    }
}

// ------------------------------------------------------------------------------------------------
// Control flow graph
// ------------------------------------------------------------------------------------------------

/// Instruction `i` starts a block: it carries a pc that has a label
pub open spec fn is_leader(ins: Seq<Instruction>, labels: Map<usize, usize>, i: int) -> bool {
    ins[i].pc matches Some(p) && labels.contains_key(p)
}

/// The indices of the block leaders among the first `n` instructions, in order
pub open spec fn leaders(ins: Seq<Instruction>, labels: Map<usize, usize>, n: int) -> Seq<usize>
    decreases n,
{
    if n <= 0 {
        Seq::empty()
    } else {
        leaders(ins, labels, n - 1) + if is_leader(ins, labels, n - 1) {
            seq![(n - 1) as usize]
        } else {
            Seq::empty()
        }
    }
}

/// The block whose leader carries pc `x`; the last one where several do
pub open spec fn block_of_pc(ins: Seq<Instruction>, ls: Seq<usize>, x: usize) -> Option<int>
    decreases ls.len(),
{
    if ls.len() == 0 {
        None
    } else if ins[ls.last() as int].pc == Some(x) {
        Some(ls.len() - 1)
    } else {
        block_of_pc(ins, ls.drop_last(), x)
    }
}

/// The block a jump to pc `x` enters
pub open spec fn target_block(ins: Seq<Instruction>, labels: Map<usize, usize>, x: usize) -> int {
    block_of_pc(ins, leaders(ins, labels, ins.len() as int), x).unwrap()
}

/// The edges that instruction `i` adds: from its block to the blocks it jumps to, the false
/// target of a branch first; an instruction that neither jumps nor branches and is followed by
/// the leader of the next block falls through into that block
pub open spec fn instr_edges(ins: Seq<Instruction>, labels: Map<usize, usize>, i: int) -> Seq<(usize, usize)> {
    let src = (leaders(ins, labels, i + 1).len() - 1) as usize;
    match ins[i].op {
        Operation::Branch(x, y) => seq![
            (src, target_block(ins, labels, y) as usize),
            (src, target_block(ins, labels, x) as usize),
        ],
        Operation::Jmp(x) => seq![(src, target_block(ins, labels, x) as usize)],
        Operation::JmpOff(_) => Seq::empty(),
        _ => if i + 1 < ins.len() && is_leader(ins, labels, i + 1) {
            seq![(src, (src + 1) as usize)]
        } else {
            Seq::empty()
        },
    }
}

/// The edges of the first `n` instructions, in order
pub open spec fn cfg_edges(ins: Seq<Instruction>, labels: Map<usize, usize>, n: int) -> Seq<(usize, usize)>
    decreases n,
{
    if n <= 0 {
        Seq::empty()
    } else {
        cfg_edges(ins, labels, n - 1) + instr_edges(ins, labels, n - 1)
    }
}

/// Every jump and branch goes to a pc that starts a block, and the first instruction starts one
pub open spec fn targets_labelled(g: IRGraph) -> bool {
    let ins = g.instrs@;
    let ls = leaders(ins, g.labels@, ins.len() as int);
    &&& ins.len() > 0
    &&& is_leader(ins, g.labels@, 0)
    &&& forall|i: int| 0 <= i < ins.len() ==> match (#[trigger] ins[i]).op {
        Operation::Branch(x, y) => block_of_pc(ins, ls, x) is Some && block_of_pc(ins, ls, y) is Some,
        Operation::Jmp(x) => block_of_pc(ins, ls, x) is Some,
        _ => true,
    }
}

/// The targets of the edges leaving block `b`, in order
pub open spec fn succ_of(es: Seq<(usize, usize)>, b: int) -> Seq<usize>
    decreases es.len(),
{
    if es.len() == 0 {
        Seq::empty()
    } else {
        succ_of(es.drop_last(), b) + if es.last().0 == b { seq![es.last().1] } else { Seq::empty() }
    }
}

/// The sources of the edges entering block `b`, in order
pub open spec fn pred_of(es: Seq<(usize, usize)>, b: int) -> Seq<usize>
    decreases es.len(),
{
    if es.len() == 0 {
        Seq::empty()
    } else {
        pred_of(es.drop_last(), b) + if es.last().1 == b { seq![es.last().0] } else { Seq::empty() }
    }
}

/// The leaders are increasing, lie among the first `n` instructions, and are exactly the
/// leader instructions there
pub proof fn lemma_leaders(ins: Seq<Instruction>, labels: Map<usize, usize>, n: int)
    requires
        0 <= n <= ins.len(),
        ins.len() <= usize::MAX,
    ensures
        forall|k: int| 0 <= k < leaders(ins, labels, n).len() ==> #[trigger] leaders(ins, labels, n)[k] < n
            && is_leader(ins, labels, leaders(ins, labels, n)[k] as int),
        forall|j: int, k: int|
            0 <= j < k < leaders(ins, labels, n).len() ==> #[trigger] leaders(ins, labels, n)[j]
                < #[trigger] leaders(ins, labels, n)[k],
        leaders(ins, labels, n).len() <= n,
    decreases n,
{
    if n > 0 {
        lemma_leaders(ins, labels, n - 1);
        let prev = leaders(ins, labels, n - 1);
        let cur = leaders(ins, labels, n);
        if is_leader(ins, labels, n - 1) {
            assert(cur =~= prev.push((n - 1) as usize));
        } else {
            assert(cur =~= prev);
        }
        assert forall|k: int| 0 <= k < cur.len() implies #[trigger] cur[k] < n && is_leader(ins, labels, cur[k] as int) by {
            if k < prev.len() {
                assert(cur[k] == prev[k]);
                assert(prev[k] < n - 1);
            } else {
                assert(cur[k] == n - 1);
            }
        }
        assert forall|j: int, k: int| 0 <= j < k < cur.len() implies #[trigger] cur[j] < #[trigger] cur[k] by {
            assert(cur[j] == prev[j]);
            if k < prev.len() {
                assert(cur[k] == prev[k]);
            }
        }
    }
}

/// Leaders of a longer prefix extend those of a shorter one
pub proof fn lemma_leaders_prefix(ins: Seq<Instruction>, labels: Map<usize, usize>, m: int, n: int)
    requires
        0 <= m <= n <= ins.len(),
    ensures
        leaders(ins, labels, m).len() <= leaders(ins, labels, n).len(),
        forall|k: int| 0 <= k < leaders(ins, labels, m).len() ==> #[trigger] leaders(ins, labels, n)[k] == leaders(ins, labels, m)[k],
    decreases n - m,
{
    if m < n {
        lemma_leaders_prefix(ins, labels, m, n - 1);
        let prev = leaders(ins, labels, n - 1);
        if is_leader(ins, labels, n - 1) {
            assert(leaders(ins, labels, n) =~= prev.push((n - 1) as usize));
        } else {
            assert(leaders(ins, labels, n) =~= prev);
        }
    }
}

/// The first instruction, a leader, makes the leaders of the first one instruction `[0]`
proof fn lemma_first_leader(ins: Seq<Instruction>, labels: Map<usize, usize>)
    requires
        ins.len() > 0,
        is_leader(ins, labels, 0),
    ensures
        leaders(ins, labels, 1) == seq![0usize],
{
    assert(leaders(ins, labels, 0) =~= Seq::<usize>::empty());
    assert(leaders(ins, labels, 1) =~= seq![0usize]);
}

/// The instructions of the program split into blocks: block `k` runs from the `k`-th leader to
/// just before the next one (or the end), carries the pc of its leader and its own index
pub open spec fn blocks_partition(r: SSABuilder, ins: Seq<Instruction>, labels: Map<usize, usize>) -> bool {
    let ls = leaders(ins, labels, ins.len() as int);
    &&& r.leader_set@ == ls
    &&& r.blocks@.len() == ls.len()
    &&& forall|k: int| 0 <= k < ls.len() ==> {
        let b = #[trigger] r.blocks@[k];
        &&& b.index == k
        &&& b.start == ls[k]
        &&& b.end + 1 == (if k + 1 < ls.len() { ls[k + 1] as int } else { ins.len() as int })
        &&& ins[ls[k] as int].pc == Some(b.label)
        &&& b.phi_funcs@.len() == 0
    }
}

/// The edges are those of the control flow graph, and each block lists the targets of its
/// outgoing edges and the sources of its incoming ones, in edge order
pub open spec fn edges_are_cfg(r: SSABuilder, ins: Seq<Instruction>, labels: Map<usize, usize>) -> bool {
    &&& r.edges@ == cfg_edges(ins, labels, ins.len() as int)
    &&& forall|k: int| 0 <= k < r.blocks@.len() ==> (#[trigger] r.blocks@[k]).succ@ == succ_of(r.edges@, k)
        && r.blocks@[k].pred@ == pred_of(r.edges@, k)
}

/// The blocks follow each other without gap or overlap and together hold instructions `0..n`
pub open spec fn blocks_contiguous(g: Seq<Block>, n: int) -> bool {
    &&& g.len() > 0
    &&& g[0].start == 0
    &&& forall|k: int| 0 <= k < g.len() ==> (#[trigger] g[k]).start <= g[k].end
    &&& forall|k: int| 0 < k < g.len() ==> #[trigger] g[k].start == g[k - 1].end + 1
    &&& g[g.len() - 1].end + 1 == n
}

/// Every edge runs between blocks
pub open spec fn edges_in_range(es: Seq<(usize, usize)>, n: int) -> bool {
    forall|i: int| 0 <= i < es.len() ==> (#[trigger] es[i]).0 < n && es[i].1 < n
}

/// The control flow graph of a function, and what SSA construction computes on it
#[derive(Debug)]
pub struct SSABuilder {
    /// The edges between blocks, as (source, target) block indices
    pub edges: Vec<(usize, usize)>,
    /// Index of the first instruction of each block
    pub leader_set: Vec<usize>,
    /// Basic blocks in the program
    pub blocks: Vec<Block>,
    /// `dom[b][d]` holds where block `d` dominates block `b`
    pub dom: Vec<Vec<bool>>,
    /// The immediate dominator of each block, where it has one
    pub idom: Vec<Option<usize>>,
    /// Dominance frontier of each block, in increasing order
    pub dominance_frontier: Vec<Vec<usize>>,
    /// The phi functions: `phi_sites[r][b]` holds where register number `r` has a phi function
    /// at the start of block `b`
    pub phi_sites: Vec<Vec<bool>>,
    /// `phi_versions[r][b]`: the version that the phi function of register number `r` at block
    /// `b` defines; 0 where there is none
    pub phi_versions: Vec<Vec<usize>>,
    /// The SSA version each instruction defines; 0 where it writes no register or the zero
    /// register. The definitions of each register are numbered 1, 2, ... in program order
    pub def_versions: Vec<usize>,
    /// The SSA version of each input of each instruction; 0 for an immediate, for the zero
    /// register, and for a register that nothing before it defines
    pub use_versions: Vec<Vec<usize>>,
    /// `phi_args[r][b]`: the versions that the phi function of register number `r` at block `b`
    /// takes from each predecessor of `b`, in predecessor order; empty where `b` has no such phi
    pub phi_args: Vec<Vec<Vec<usize>>>,
}

/// The index of the block whose leader carries pc `x`, the last one where several do
fn find_block(ins: &Vec<Instruction>, ls: &Vec<usize>, x: usize) -> (r: Option<usize>)
    requires
        forall|k: int| 0 <= k < ls@.len() ==> #[trigger] ls@[k] < ins@.len(),
    ensures
        r matches Some(v) ==> block_of_pc(ins@, ls@, x) == Some(v as int),
        r is None ==> block_of_pc(ins@, ls@, x) is None,
{
    let mut i = ls.len();
    assert(ls@.take(i as int) =~= ls@);
    while i > 0
        invariant
            i <= ls@.len(),
            forall|k: int| 0 <= k < ls@.len() ==> #[trigger] ls@[k] < ins@.len(),
            block_of_pc(ins@, ls@, x) == block_of_pc(ins@, ls@.take(i as int), x),
        decreases i,
    {
        assert(ls@.take(i as int).drop_last() =~= ls@.take(i - 1));
        i = i - 1;
        if ins[ls[i]].pc == Some(x) {
            return Some(i);
        }
    }
    None
}

impl SSABuilder {
    /// Loop through the instructions of a function and build its control flow graph: one block
    /// per labelled instruction, an edge for each jump and each side of each branch, and one
    /// from each block that ends without jumping into the block after it
    pub fn new(irgraph: &IRGraph) -> (r: SSABuilder)
        requires
            irgraph.instrs@.len() > 0,
            targets_labelled(*irgraph),
        ensures
            blocks_partition(r, irgraph.instrs@, irgraph.labels@),
            edges_are_cfg(r, irgraph.instrs@, irgraph.labels@),
            edges_in_range(r.edges@, r.blocks@.len() as int),
            r.wf(),
            r.dom@.len() == 0,
            r.idom@.len() == 0,
            r.dominance_frontier@.len() == 0,
            r.phi_sites@.len() == 0,
            r.phi_versions@.len() == 0,
            r.def_versions@.len() == 0,
            r.use_versions@.len() == 0,
            r.phi_args@.len() == 0,
            blocks_contiguous(r.blocks@, irgraph.instrs@.len() as int),
    {
        let ghost ins = irgraph.instrs@;
        let ghost labels = irgraph.labels@;
        let n = irgraph.instrs.len();
        // Determine label locations
        let mut ls: Vec<usize> = Vec::new();
        let mut i: usize = 0;
        while i < n
            invariant
                n == ins.len(),
                ins == irgraph.instrs@,
                labels == irgraph.labels@,
                i <= n,
                ls@ == leaders(ins, labels, i as int),
            decreases n - i,
        {
            match irgraph.instrs[i].pc {
                Some(p) => {
                    if irgraph.labels.contains_key(&p) {
                        ls.push(i);
                    }
                },
                None => {},
            }
            i = i + 1;
        }
        proof {
            lemma_leaders(ins, labels, n as int);
            lemma_leaders_prefix(ins, labels, 1, n as int);
            lemma_first_leader(ins, labels);
        }
        let nb = ls.len();
        // Set the edges of the control flow graph
        let mut edges: Vec<(usize, usize)> = Vec::new();
        let mut cur: usize = 0;
        let mut j: usize = 0;
        while j < n
            invariant
                n == ins.len(),
                ins == irgraph.instrs@,
                labels == irgraph.labels@,
                targets_labelled(*irgraph),
                ls@ == leaders(ins, labels, n as int),
                nb == ls@.len(),
                nb >= 1,
                j <= n,
                forall|k: int| 0 <= k < ls@.len() ==> #[trigger] ls@[k] < ins.len(),
                j > 0 ==> cur + 1 == leaders(ins, labels, j as int).len(),
                j == 0 ==> cur == 0,
                edges@ == cfg_edges(ins, labels, j as int),
                edges_in_range(edges@, nb as int),
            decreases n - j,
        {
            proof {
                lemma_leaders_prefix(ins, labels, j + 1, n as int);
                lemma_leaders_prefix(ins, labels, 1, j + 1);
                lemma_first_leader(ins, labels);
            }
            if j > 0 {
                match irgraph.instrs[j].pc {
                    Some(p) => {
                        if irgraph.labels.contains_key(&p) {
                            cur = cur + 1;
                        }
                    },
                    None => {},
                }
            }
            assert(cur + 1 == leaders(ins, labels, j + 1).len());
            let ghost before = edges@;
            assert(targets_labelled(*irgraph));
            assert(match ins[j as int].op {
                Operation::Branch(x, y) => block_of_pc(ins, ls@, x) is Some && block_of_pc(ins, ls@, y) is Some,
                Operation::Jmp(x) => block_of_pc(ins, ls@, x) is Some,
                _ => true,
            });
            match irgraph.instrs[j].op {
                Operation::Branch(x, y) => {
                    let ty = find_block(&irgraph.instrs, &ls, y).unwrap();
                    let tx = find_block(&irgraph.instrs, &ls, x).unwrap();
                    proof { lemma_block_of_pc_range(ins, ls@, y); lemma_block_of_pc_range(ins, ls@, x); }
                    edges.push((cur, ty));
                    edges.push((cur, tx));
                },
                Operation::Jmp(x) => {
                    let tx = find_block(&irgraph.instrs, &ls, x).unwrap();
                    proof { lemma_block_of_pc_range(ins, ls@, x); }
                    edges.push((cur, tx));
                },
                Operation::JmpOff(_) => {},
                _ => {
                    if j + 1 < n {
                        let next_labelled = match irgraph.instrs[j + 1].pc {
                            Some(p) => irgraph.labels.contains_key(&p),
                            None => false,
                        };
                        if next_labelled {
                            proof {
                                lemma_leaders_prefix(ins, labels, j + 2, n as int);
                                assert(leaders(ins, labels, j + 2).len() == cur + 2);
                            }
                            edges.push((cur, cur + 1));
                        }
                    }
                },
            }
            assert(edges@ =~= before + instr_edges(ins, labels, j as int));
            j = j + 1;
        }
        // Initiate blocks, these track the first and last instruction of each block
        let mut blocks: Vec<Block> = Vec::new();
        let mut k: usize = 0;
        while k < nb
            invariant
                n == ins.len(),
                ins == irgraph.instrs@,
                labels == irgraph.labels@,
                ls@ == leaders(ins, labels, n as int),
                nb == ls@.len(),
                k <= nb,
                edges_in_range(edges@, nb as int),
                forall|q: int| 0 <= q < ls@.len() ==> #[trigger] ls@[q] < n && is_leader(ins, labels, ls@[q] as int),
                forall|a: int, b: int| 0 <= a < b < ls@.len() ==> #[trigger] ls@[a] < #[trigger] ls@[b],
                blocks@.len() == k,
                forall|q: int| 0 <= q < k ==> {
                    let b = #[trigger] blocks@[q];
                    &&& b.index == q
                    &&& b.start == ls@[q]
                    &&& b.end + 1 == (if q + 1 < ls@.len() { ls@[q + 1] as int } else { n as int })
                    &&& ins[ls@[q] as int].pc == Some(b.label)
                    &&& b.phi_funcs@.len() == 0
                    &&& b.succ@ == succ_of(edges@, q)
                    &&& b.pred@ == pred_of(edges@, q)
                },
            decreases nb - k,
        {
            let start = ls[k];
            let next = if k + 1 < nb { ls[k + 1] } else { n };
            let mut b = Block::new(start, next - 1, k);
            b.label = match irgraph.instrs[start].pc {
                Some(p) => p,
                None => 0,
            };
            b.succ = succ_list(&edges, k);
            b.pred = pred_list(&edges, k);
            blocks.push(b);
            k = k + 1;
        }
        proof {
            lemma_leaders_prefix(ins, labels, 1, n as int);
            lemma_first_leader(ins, labels);
            assert(ls@[0] == 0);
            assert(blocks@[0].start == 0);
            assert forall|q: int| 0 < q < blocks@.len() implies #[trigger] blocks@[q].start == blocks@[q - 1].end + 1 by {
                assert(blocks@[q].start == ls@[q]);
            }
            assert forall|q: int| 0 <= q < blocks@.len() implies #[trigger] blocks@[q].start <= blocks@[q].end by {
                if q + 1 < ls@.len() {
                    assert(ls@[q] < ls@[q + 1]);
                }
            }
            assert(blocks_contiguous(blocks@, n as int));
            assert forall|q: int, t: int|
                0 <= q < blocks@.len() && 0 <= t < blocks@[q].succ@.len() implies #[trigger] blocks@[q].succ@[t] < blocks@.len() by {
                lemma_lists_in_range(edges@, nb as int, q);
            }
            assert forall|q: int, t: int|
                0 <= q < blocks@.len() && 0 <= t < blocks@[q].pred@.len() implies #[trigger] blocks@[q].pred@[t] < blocks@.len() by {
                lemma_lists_in_range(edges@, nb as int, q);
            }
        }
        SSABuilder {
            edges,
            leader_set: ls,
            blocks,
            dom: Vec::new(),
            idom: Vec::new(),
            dominance_frontier: Vec::new(),
            phi_sites: Vec::new(),
            phi_versions: Vec::new(),
            def_versions: Vec::new(),
            use_versions: Vec::new(),
            phi_args: Vec::new(),
        }
    }
}

/// The targets and sources listed for a block are ends of edges
proof fn lemma_lists_in_range(es: Seq<(usize, usize)>, n: int, b: int)
    requires
        edges_in_range(es, n),
    ensures
        forall|t: int| 0 <= t < succ_of(es, b).len() ==> #[trigger] succ_of(es, b)[t] < n,
        forall|t: int| 0 <= t < pred_of(es, b).len() ==> #[trigger] pred_of(es, b)[t] < n,
    decreases es.len(),
{
    if es.len() > 0 {
        let prev = es.drop_last();
        assert(edges_in_range(prev, n)) by {
            assert forall|i: int| 0 <= i < prev.len() implies (#[trigger] prev[i]).0 < n && prev[i].1 < n by {
                assert(prev[i] == es[i]);
            }
        }
        lemma_lists_in_range(prev, n, b);
        let l = es.len() - 1;
        assert(es.last() == es[l]);
        let sp = succ_of(prev, b);
        let pp = pred_of(prev, b);
        assert forall|t: int| 0 <= t < succ_of(es, b).len() implies #[trigger] succ_of(es, b)[t] < n by {
            if t < sp.len() {
                assert(succ_of(es, b)[t] == sp[t]);
            }
        }
        assert forall|t: int| 0 <= t < pred_of(es, b).len() implies #[trigger] pred_of(es, b)[t] < n by {
            if t < pp.len() {
                assert(pred_of(es, b)[t] == pp[t]);
            }
        }
    }
}

/// A block found by pc is one of the blocks
proof fn lemma_block_of_pc_range(ins: Seq<Instruction>, ls: Seq<usize>, x: usize)
    ensures
        block_of_pc(ins, ls, x) matches Some(v) ==> 0 <= v < ls.len(),
    decreases ls.len(),
{
    if ls.len() > 0 {
        lemma_block_of_pc_range(ins, ls.drop_last(), x);
    }
}

/// The targets of the edges leaving block `b`, in edge order
fn succ_list(es: &Vec<(usize, usize)>, b: usize) -> (r: Vec<usize>)
    ensures
        r@ == succ_of(es@, b as int),
{
    let mut r: Vec<usize> = Vec::new();
    let mut i: usize = 0;
    while i < es.len()
        invariant
            i <= es@.len(),
            r@ == succ_of(es@.take(i as int), b as int),
        decreases es@.len() - i,
    {
        assert(es@.take(i + 1).drop_last() =~= es@.take(i as int));
        if es[i].0 == b {
            r.push(es[i].1);
        }
        i = i + 1;
    }
    assert(es@.take(es@.len() as int) =~= es@);
    r
}

/// The sources of the edges entering block `b`, in edge order
fn pred_list(es: &Vec<(usize, usize)>, b: usize) -> (r: Vec<usize>)
    ensures
        r@ == pred_of(es@, b as int),
{
    let mut r: Vec<usize> = Vec::new();
    let mut i: usize = 0;
    while i < es.len()
        invariant
            i <= es@.len(),
            r@ == pred_of(es@.take(i as int), b as int),
        decreases es@.len() - i,
    {
        assert(es@.take(i + 1).drop_last() =~= es@.take(i as int));
        if es[i].1 == b {
            r.push(es[i].0);
        }
        i = i + 1;
    }
    assert(es@.take(es@.len() as int) =~= es@);
    r
}


// ------------------------------------------------------------------------------------------------
// Dominance
// ------------------------------------------------------------------------------------------------

impl SSABuilder {
    /// The graph's blocks exist and its edges stay among them
    pub open spec fn wf(&self) -> bool {
        &&& self.blocks@.len() > 0
        &&& self.blocks@.len() <= usize::MAX
        &&& forall|b: int, t: int|
            0 <= b < self.blocks@.len() && 0 <= t < self.blocks@[b].succ@.len() ==> #[trigger] self.blocks@[b].succ@[t]
                < self.blocks@.len()
        &&& forall|b: int, t: int|
            0 <= b < self.blocks@.len() && 0 <= t < self.blocks@[b].pred@.len() ==> #[trigger] self.blocks@[b].pred@[t]
                < self.blocks@.len()
    }
}

/// `p` is a path of the control flow graph that starts at the entry block 0
pub open spec fn is_cfg_path(g: Seq<Block>, p: Seq<int>) -> bool {
    &&& p.len() > 0
    &&& p[0] == 0
    &&& forall|i: int| 0 <= i < p.len() ==> 0 <= #[trigger] p[i] < g.len()
    &&& forall|i: int| 0 <= i < p.len() - 1 ==> g[#[trigger] p[i]].succ@.contains(p[i + 1] as usize)
}

/// Some path from the entry reaches block `b` without passing through block `d`
pub open spec fn reaches_avoiding(g: Seq<Block>, b: int, d: int) -> bool {
    exists|p: Seq<int>| #[trigger] is_cfg_path(g, p) && p.last() == b && forall|i: int| 0 <= i < p.len() ==> p[i] != d
}

/// Block `d` dominates block `b`: every path from the entry to `b` passes through `d`
pub open spec fn dominates(g: Seq<Block>, d: int, b: int) -> bool {
    !reaches_avoiding(g, b, d)
}

/// `d` is the immediate dominator of `b`: a dominator other than `b` itself that every other
/// such dominator of `b` dominates
pub open spec fn is_idom(g: Seq<Block>, d: int, b: int) -> bool {
    &&& 0 <= d < g.len()
    &&& d != b
    &&& dominates(g, d, b)
    &&& forall|e: int| 0 <= e < g.len() && e != b && #[trigger] dominates(g, e, b) ==> dominates(g, e, d)
}

/// `y` is in the dominance frontier of `b`: `b` dominates a predecessor of `y` but does not
/// strictly dominate `y`
pub open spec fn in_frontier(g: Seq<Block>, b: int, y: int) -> bool {
    &&& exists|t: int| 0 <= t < g[y].pred@.len() && dominates(g, b, #[trigger] g[y].pred@[t] as int)
    &&& !(b != y && dominates(g, b, y))
}

/// The dominator table: `dom[d][b]` tells whether `d` dominates `b`
pub open spec fn dom_is_dominance(r: SSABuilder) -> bool {
    &&& r.dom@.len() == r.blocks@.len()
    &&& forall|d: int| 0 <= d < r.dom@.len() ==> (#[trigger] r.dom@[d])@.len() == r.blocks@.len()
    &&& forall|d: int, b: int|
        0 <= d < r.blocks@.len() && 0 <= b < r.blocks@.len() ==> (r.dom@[d]@[b] <==> #[trigger] dominates(r.blocks@, d, b))
}

/// Each block's immediate dominator, where it has one
pub open spec fn idom_is_immediate_dominator(r: SSABuilder) -> bool {
    &&& r.idom@.len() == r.blocks@.len()
    &&& forall|b: int| 0 <= b < r.blocks@.len() ==> match #[trigger] r.idom@[b] {
        Some(d) => is_idom(r.blocks@, d as int, b),
        None => forall|d: int| 0 <= d < r.blocks@.len() ==> !is_idom(r.blocks@, d, b),
    }
}

/// Each block's dominance frontier, in increasing order
pub open spec fn df_is_dominance_frontier(r: SSABuilder) -> bool {
    &&& r.dominance_frontier@.len() == r.blocks@.len()
    &&& forall|b: int| 0 <= b < r.blocks@.len() ==> {
        let df = (#[trigger] r.dominance_frontier@[b])@;
        &&& forall|i: int, j: int| 0 <= i < j < df.len() ==> df[i] < df[j]
        &&& forall|y: int| 0 <= y < r.blocks@.len() ==> (df.contains(y as usize) <==> in_frontier(r.blocks@, b, y))
        &&& forall|i: int| 0 <= i < df.len() ==> df[i] < r.blocks@.len()
    }
}

/// Some path from the entry reaches block `b`
pub open spec fn reachable(g: Seq<Block>, b: int) -> bool {
    exists|p: Seq<int>| #[trigger] is_cfg_path(g, p) && p.last() == b
}

/// A path cut after its `i`-th block is a path to that block
proof fn lemma_path_prefix(g: Seq<Block>, p: Seq<int>, i: int)
    requires
        is_cfg_path(g, p),
        0 <= i < p.len(),
    ensures
        is_cfg_path(g, p.take(i + 1)),
        p.take(i + 1).last() == p[i],
{
    let t = p.take(i + 1);
    assert forall|k: int| 0 <= k < t.len() - 1 implies g[#[trigger] t[k]].succ@.contains(t[k + 1] as usize) by {
        assert(t[k] == p[k] && t[k + 1] == p[k + 1]);
    }
}

/// A path to the `i`-th block of `q`, followed by the rest of `q`, is a path to where `q` ends;
/// its blocks are those of `p` and those of `q` after `i`
proof fn lemma_path_join(g: Seq<Block>, p: Seq<int>, q: Seq<int>, i: int)
    requires
        is_cfg_path(g, p),
        is_cfg_path(g, q),
        0 <= i < q.len(),
        p.last() == q[i],
    ensures
        is_cfg_path(g, p + q.subrange(i + 1, q.len() as int)),
        (p + q.subrange(i + 1, q.len() as int)).last() == q.last(),
        forall|k: int|
            0 <= k < (p + q.subrange(i + 1, q.len() as int)).len() ==> (exists|a: int| 0 <= a < p.len() && #[trigger] (p
                + q.subrange(i + 1, q.len() as int))[k] == p[a]) || (exists|c: int| i < c < q.len() && (p + q.subrange(
                i + 1,
                q.len() as int,
            ))[k] == q[c]),
{
    let rest = q.subrange(i + 1, q.len() as int);
    let r = p + rest;
    let n = p.len();
    assert forall|k: int| 0 <= k < r.len() implies 0 <= #[trigger] r[k] < g.len() by {
        if k < n {
            assert(r[k] == p[k]);
        } else {
            assert(r[k] == q[i + 1 + k - n]);
        }
    }
    assert forall|k: int| 0 <= k < r.len() - 1 implies g[#[trigger] r[k]].succ@.contains(r[k + 1] as usize) by {
        if k < n - 1 {
            assert(r[k] == p[k] && r[k + 1] == p[k + 1]);
        } else if k == n - 1 {
            assert(r[k] == p.last() && r[k + 1] == q[i + 1]);
            assert(g[q[i]].succ@.contains(q[i + 1] as usize));
        } else {
            assert(r[k] == q[i + 1 + k - n] && r[k + 1] == q[i + 1 + k + 1 - n]);
            assert(g[q[i + 1 + k - n]].succ@.contains(q[i + 1 + k - n + 1] as usize));
        }
    }
    if i + 1 == q.len() {
        assert(r =~= p);
    } else {
        assert(r.last() == q[q.len() - 1]);
    }
    assert forall|k: int| 0 <= k < r.len() implies (exists|a: int| 0 <= a < p.len() && #[trigger] r[k] == p[a]) || (
    exists|c: int| i < c < q.len() && r[k] == q[c]) by {
        if k < n {
            assert(r[k] == p[k]);
        } else {
            assert(r[k] == q[i + 1 + k - n]);
        }
    }
}

/// A block dominating `b` lies on every path to `b`
proof fn lemma_dominator_on_path(g: Seq<Block>, d: int, b: int, q: Seq<int>) -> (i: int)
    requires
        dominates(g, d, b),
        is_cfg_path(g, q),
        q.last() == b,
    ensures
        0 <= i < q.len(),
        q[i] == d,
{
    if forall|k: int| 0 <= k < q.len() ==> q[k] != d {
        assert(reaches_avoiding(g, b, d));
    }
    choose|k: int| 0 <= k < q.len() && q[k] == d
}

/// Dominance is transitive
proof fn lemma_dominates_trans(g: Seq<Block>, e: int, d: int, c: int)
    requires
        dominates(g, e, d),
        dominates(g, d, c),
    ensures
        dominates(g, e, c),
{
    if reaches_avoiding(g, c, e) {
        let q = choose|q: Seq<int>| #[trigger] is_cfg_path(g, q) && q.last() == c && forall|k: int| 0 <= k < q.len() ==> q[k] != e;
        let i = lemma_dominator_on_path(g, d, c, q);
        lemma_path_prefix(g, q, i);
        let t = q.take(i + 1);
        assert forall|k: int| 0 <= k < t.len() implies t[k] != e by {
            assert(t[k] == q[k]);
        }
        assert(reaches_avoiding(g, d, e));
    }
}

/// The last position up to `k` in `q` that holds `d1` or `d2`, where there is one
proof fn lemma_last_hit(q: Seq<int>, d1: int, d2: int, k: int) -> (j: int)
    requires
        0 <= k < q.len(),
        exists|i: int| 0 <= i <= k && (q[i] == d1 || q[i] == d2),
    ensures
        0 <= j <= k,
        q[j] == d1 || q[j] == d2,
        forall|j2: int| j < j2 <= k ==> q[j2] != d1 && q[j2] != d2,
    decreases k,
{
    if q[k] == d1 || q[k] == d2 {
        k
    } else {
        lemma_last_hit(q, d1, d2, k - 1)
    }
}

/// Two dominators of a reachable block dominate one another one way or the other: the one that
/// comes last on a path to the block is dominated by the other
proof fn lemma_dominators_chain(g: Seq<Block>, b: int, d1: int, d2: int)
    requires
        reachable(g, b),
        dominates(g, d1, b),
        dominates(g, d2, b),
    ensures
        dominates(g, d1, d2) || dominates(g, d2, d1),
{
    let q = choose|q: Seq<int>| #[trigger] is_cfg_path(g, q) && q.last() == b;
    let i1 = lemma_dominator_on_path(g, d1, b, q);
    let j = lemma_last_hit(q, d1, d2, q.len() - 1);
    let (x, y) = if q[j] == d1 { (d1, d2) } else { (d2, d1) };
    // `x` comes last: a path to `x` that avoids `y`, followed by the rest of `q`, would reach
    // `b` without `y`
    if reaches_avoiding(g, x, y) {
        let p = choose|p: Seq<int>| #[trigger] is_cfg_path(g, p) && p.last() == x && forall|k: int| 0 <= k < p.len() ==> p[k] != y;
        lemma_path_join(g, p, q, j);
        let r = p + q.subrange(j + 1, q.len() as int);
        assert forall|k: int| 0 <= k < r.len() implies r[k] != y by {
            if k < p.len() {
                assert(r[k] == p[k]);
            } else {
                assert(r[k] == q[j + 1 + k - p.len()]);
            }
        }
        assert(reaches_avoiding(g, b, y));
    }
}

/// A dominator of `b` other than `b` itself that every such dominator below `k` dominates
proof fn lemma_lowest_dominator(g: Seq<Block>, b: int, k: int) -> (d: int)
    requires
        0 < b < g.len(),
        reachable(g, b),
        0 <= k <= g.len(),
    ensures
        0 <= d < g.len(),
        d != b,
        dominates(g, d, b),
        forall|e: int| 0 <= e < k && e != b && #[trigger] dominates(g, e, b) ==> dominates(g, e, d),
    decreases k,
{
    if k == 0 {
        assert(dominates(g, 0, b)) by {
            if reaches_avoiding(g, b, 0) {
                let p = choose|p: Seq<int>| #[trigger] is_cfg_path(g, p) && p.last() == b && forall|i: int| 0 <= i < p.len() ==> p[i] != 0;
                assert(p[0] == 0);
            }
        }
        0
    } else {
        let c = k - 1;
        let d = lemma_lowest_dominator(g, b, c);
        if c != b && dominates(g, c, b) && !dominates(g, c, d) {
            lemma_dominators_chain(g, b, c, d);
            assert forall|e: int| 0 <= e < k && e != b && #[trigger] dominates(g, e, b) implies dominates(g, e, c) by {
                if e < c {
                    lemma_dominates_trans(g, e, d, c);
                } else {
                    assert(!reaches_avoiding(g, c, c)) by {
                        if reaches_avoiding(g, c, c) {
                            let p = choose|p: Seq<int>| #[trigger] is_cfg_path(g, p) && p.last() == c && forall|i: int| 0 <= i < p.len() ==> p[i] != c;
                            assert(p[p.len() - 1] == c);
                        }
                    }
                }
            }
            c
        } else {
            d
        }
    }
}

/// Every block that the entry reaches, other than the entry itself, has an immediate dominator
pub proof fn lemma_reachable_has_idom(g: Seq<Block>, b: int)
    requires
        0 < b < g.len(),
        reachable(g, b),
    ensures
        exists|d: int| is_idom(g, d, b),
{
    let d = lemma_lowest_dominator(g, b, g.len() as int);
    assert(is_idom(g, d, b));
}

/// The builder's table of immediate dominators has one for every block that the entry reaches,
/// other than the entry itself
pub proof fn lemma_reachable_blocks_have_idom(r: SSABuilder, b: int)
    requires
        idom_is_immediate_dominator(r),
        0 < b < r.blocks@.len(),
        reachable(r.blocks@, b),
    ensures
        r.idom@[b] is Some,
{
    lemma_reachable_has_idom(r.blocks@, b);
    let d = choose|d: int| is_idom(r.blocks@, d, b);
    assert(0 <= d < r.blocks@.len());
    if r.idom@[b] is None {
        assert(!is_idom(r.blocks@, d, b));
    }
}

/// A sequence of distinct numbers below `n` has at most `n` elements
proof fn lemma_distinct_bound(q: Seq<usize>, n: int)
    requires
        q.no_duplicates(),
        0 <= n,
        forall|i: int| 0 <= i < q.len() ==> #[trigger] q[i] < n,
    ensures
        q.len() <= n,
{
    let qi = q.map_values(|x: usize| x as int);
    assert(qi.no_duplicates()) by {
        assert forall|i: int, j: int| 0 <= i < qi.len() && 0 <= j < qi.len() && i != j implies qi[i] != qi[j] by {
            assert(q[i] != q[j]);
        }
    }
    qi.unique_seq_to_set();
    vstd::set_lib::lemma_int_range(0, n);
    assert(qi.to_set().subset_of(vstd::set_lib::set_int_range(0, n))) by {
        assert forall|x: int| qi.to_set().contains(x) implies vstd::set_lib::set_int_range(0, n).contains(x) by {
            assert(qi.contains(x));
            let i = choose|i: int| 0 <= i < qi.len() && qi[i] == x;
            assert(q[i] < n);
        }
    }
    vstd::set_lib::lemma_len_subset(qi.to_set(), vstd::set_lib::set_int_range(0, n));
}

/// A set of blocks that holds the entry (unless it is `d`), leaves out `d`, and holds every
/// successor other than `d` of its members, holds every block reachable while avoiding `d`
proof fn lemma_closed_holds_reachable(g: Seq<Block>, marked: Seq<bool>, d: int, b: int)
    requires
        g.len() > 0,
        g.len() <= usize::MAX,
        marked.len() == g.len(),
        d != 0 ==> marked[0],
        forall|u: int, t: int|
            0 <= u < marked.len() && marked[u] && 0 <= t < g[u].succ@.len() && g[u].succ@[t] != d
                ==> #[trigger] marked[g[u].succ@[t] as int],
        reaches_avoiding(g, b, d),
    ensures
        marked[b],
{
    let p = choose|p: Seq<int>| #[trigger] is_cfg_path(g, p) && p.last() == b && forall|i: int| 0 <= i < p.len() ==> p[i] != d;
    lemma_path_marked(g, marked, d, p, p.len() - 1);
}

/// Every block of an avoiding path up to position `k` lies in a closed set
proof fn lemma_path_marked(g: Seq<Block>, marked: Seq<bool>, d: int, p: Seq<int>, k: int)
    requires
        g.len() > 0,
        g.len() <= usize::MAX,
        marked.len() == g.len(),
        d != 0 ==> marked[0],
        forall|u: int, t: int|
            0 <= u < marked.len() && marked[u] && 0 <= t < g[u].succ@.len() && g[u].succ@[t] != d
                ==> #[trigger] marked[g[u].succ@[t] as int],
        is_cfg_path(g, p),
        forall|i: int| 0 <= i < p.len() ==> p[i] != d,
        0 <= k < p.len(),
    ensures
        marked[p[k]],
    decreases k,
{
    if k > 0 {
        lemma_path_marked(g, marked, d, p, k - 1);
        let j = k - 1;
        assert(g[p[j]].succ@.contains(p[j + 1] as usize));
        let t = choose|t: int| 0 <= t < g[p[j]].succ@.len() && g[p[j]].succ@[t] == p[j + 1] as usize;
        assert(0 <= p[k] < g.len());
        assert(p[j + 1] == p[k]);
        assert(g[p[j]].succ@[t] as int == p[k]);
        assert(marked[g[p[j]].succ@[t] as int]);
    } else {
        assert(p[0] == 0);
    }
}

impl SSABuilder {
    /// Which blocks some path from the entry reaches without passing through block `d`
    pub fn reach_avoiding(&self, d: usize) -> (r: Vec<bool>)
        requires
            self.wf(),
            d < self.blocks@.len(),
        ensures
            r@.len() == self.blocks@.len(),
            forall|b: int| 0 <= b < self.blocks@.len() ==> (r@[b] <==> #[trigger] reaches_avoiding(self.blocks@, b, d as int)),
    {
        let nb = self.blocks.len();
        let mut marked: Vec<bool> = Vec::new();
        let mut i: usize = 0;
        while i < nb
            invariant
                i <= nb,
                marked@.len() == i,
                forall|k: int| 0 <= k < i ==> !marked@[k],
            decreases nb - i,
        {
            marked.push(false);
            i = i + 1;
        }
        let mut queue: Vec<usize> = Vec::new();
        if d != 0 {
            marked.set(0, true);
            queue.push(0);
            proof {
                let p = seq![0int];
                assert(is_cfg_path(self.blocks@, p));
                assert(reaches_avoiding(self.blocks@, 0, d as int));
            }
        }
        proof {
            assert forall|b: int| 0 <= b < nb implies (marked@[b] <==> queue@.contains(b as usize)) by {
                if d != 0 && b == 0 {
                    assert(queue@[0] == 0);
                }
            }
            assert forall|b: int| 0 <= b < nb && marked@[b] implies #[trigger] reaches_avoiding(self.blocks@, b, d as int) by {
                assert(b == 0);
            }
        }
        let mut head: usize = 0;
        while head < queue.len()
            invariant
                self.wf(),
                nb == self.blocks@.len(),
                d < nb,
                marked@.len() == nb,
                head <= queue@.len(),
                queue@.no_duplicates(),
                forall|q: int| 0 <= q < queue@.len() ==> #[trigger] queue@[q] < nb,
                forall|b: int| 0 <= b < nb ==> (marked@[b] <==> queue@.contains(b as usize)),
                forall|b: int| 0 <= b < nb && marked@[b] ==> #[trigger] reaches_avoiding(self.blocks@, b, d as int),
                !marked@[d as int],
                d != 0 ==> marked@[0],
                forall|q: int, t: int|
                    0 <= q < head && 0 <= t < self.blocks@[queue@[q] as int].succ@.len()
                        && self.blocks@[queue@[q] as int].succ@[t] != d ==> #[trigger] marked@[self.blocks@[
                        queue@[q] as int].succ@[t] as int],
            decreases nb - head,
        {
            proof {
                lemma_distinct_bound(queue@, nb as int);
            }
            let u = queue[head];
            assert(queue@.contains(u));
            assert(marked@[u as int]);
            assert(reaches_avoiding(self.blocks@, u as int, d as int));
            let ghost pu = choose|p: Seq<int>| #[trigger] is_cfg_path(self.blocks@, p) && p.last() == u as int && forall|i: int|
                0 <= i < p.len() ==> p[i] != d as int;
            assert(reaches_avoiding(self.blocks@, u as int, d as int));
            let ns = self.blocks[u].succ.len();
            let mut t: usize = 0;
            while t < ns
                invariant
                    self.wf(),
                    nb == self.blocks@.len(),
                    d < nb,
                    u < nb,
                    u == queue@[head as int],
                    head < queue@.len(),
                    ns == self.blocks@[u as int].succ@.len(),
                    t <= ns,
                    is_cfg_path(self.blocks@, pu),
                    pu.last() == u as int,
                    forall|i: int| 0 <= i < pu.len() ==> pu[i] != d as int,
                    marked@.len() == nb,
                    queue@.no_duplicates(),
                    forall|q: int| 0 <= q < queue@.len() ==> #[trigger] queue@[q] < nb,
                    forall|b: int| 0 <= b < nb ==> (marked@[b] <==> queue@.contains(b as usize)),
                    forall|b: int| 0 <= b < nb && marked@[b] ==> #[trigger] reaches_avoiding(self.blocks@, b, d as int),
                    !marked@[d as int],
                    d != 0 ==> marked@[0],
                    forall|q: int, t2: int|
                        0 <= q < head && 0 <= t2 < self.blocks@[queue@[q] as int].succ@.len()
                            && self.blocks@[queue@[q] as int].succ@[t2] != d ==> #[trigger] marked@[self.blocks@[
                            queue@[q] as int].succ@[t2] as int],
                    forall|t2: int|
                        0 <= t2 < t && self.blocks@[u as int].succ@[t2] != d ==> #[trigger] marked@[self.blocks@[
                            u as int].succ@[t2] as int],
                decreases ns - t,
            {
                let s = self.blocks[u].succ[t];
                assert(s < nb);
                if s != d && !marked[s] {
                    proof {
                        let p2 = pu.push(s as int);
                        assert(self.blocks@[pu[pu.len() - 1]].succ@.contains(s));
                        assert(is_cfg_path(self.blocks@, p2)) by {
                            assert forall|i: int| 0 <= i < p2.len() - 1 implies self.blocks@[#[trigger] p2[i]].succ@.contains(
                                p2[i + 1] as usize,
                            ) by {
                                if i < pu.len() - 1 {
                                    assert(p2[i] == pu[i] && p2[i + 1] == pu[i + 1]);
                                }
                            }
                        }
                        assert(reaches_avoiding(self.blocks@, s as int, d as int));
                        assert(!queue@.contains(s));
                    }
                    let ghost qold = queue@;
                    marked.set(s, true);
                    queue.push(s);
                    assert(queue@.drop_last() =~= qold);
                    proof {
                        assert forall|b: int| 0 <= b < nb implies (marked@[b] <==> queue@.contains(b as usize)) by {
                            if b != s {
                                if queue@.contains(b as usize) {
                                    let q = choose|q: int| 0 <= q < queue@.len() && queue@[q] == b as usize;
                                    assert(q < queue@.len() - 1);
                                    assert(queue@.drop_last().contains(b as usize));
                                }
                                if marked@[b] {
                                    assert(queue@.drop_last().contains(b as usize));
                                    let q = choose|q: int| 0 <= q < queue@.drop_last().len() && queue@.drop_last()[q] == b as usize;
                                    assert(queue@[q] == b as usize);
                                }
                            } else {
                                assert(queue@[queue@.len() - 1] == s);
                            }
                        }
                    }
                }
                t = t + 1;
            }
            head = head + 1;
        }
        proof {
            assert forall|b: int| 0 <= b < nb implies (marked@[b] <==> #[trigger] reaches_avoiding(self.blocks@, b, d as int)) by {
                if reaches_avoiding(self.blocks@, b, d as int) {
                    assert forall|u2: int, t2: int|
                        0 <= u2 < marked@.len() && marked@[u2] && 0 <= t2 < self.blocks@[u2].succ@.len()
                            && self.blocks@[u2].succ@[t2] != d implies #[trigger] marked@[self.blocks@[u2].succ@[t2] as int] by {
                        assert(queue@.contains(u2 as usize));
                        let q = choose|q: int| 0 <= q < queue@.len() && queue@[q] == u2 as usize;
                        assert(marked@[self.blocks@[queue@[q] as int].succ@[t2] as int]);
                    }
                    lemma_closed_holds_reachable(self.blocks@, marked@, d as int, b);
                }
            }
        }
        marked
    }
}


impl SSABuilder {
    /// The dominator table of the graph: row `d` tells which blocks `d` dominates
    pub fn dominator_table(&self) -> (r: Vec<Vec<bool>>)
        requires
            self.wf(),
        ensures
            r@.len() == self.blocks@.len(),
            forall|d: int| 0 <= d < r@.len() ==> (#[trigger] r@[d])@.len() == self.blocks@.len(),
            forall|d: int, b: int|
                0 <= d < self.blocks@.len() && 0 <= b < self.blocks@.len() ==> (r@[d]@[b] <==> #[trigger] dominates(
                    self.blocks@,
                    d,
                    b,
                )),
    {
        let nb = self.blocks.len();
        let mut table: Vec<Vec<bool>> = Vec::new();
        let mut d: usize = 0;
        while d < nb
            invariant
                self.wf(),
                nb == self.blocks@.len(),
                d <= nb,
                table@.len() == d,
                forall|e: int| 0 <= e < d ==> (#[trigger] table@[e])@.len() == nb,
                forall|e: int, b: int|
                    0 <= e < d && 0 <= b < nb ==> (table@[e]@[b] <==> #[trigger] dominates(self.blocks@, e, b)),
            decreases nb - d,
        {
            let reach = self.reach_avoiding(d);
            let mut row: Vec<bool> = Vec::new();
            let mut b: usize = 0;
            while b < nb
                invariant
                    nb == self.blocks@.len(),
                    d < nb,
                    b <= nb,
                    reach@.len() == nb,
                    forall|c: int| 0 <= c < nb ==> (reach@[c] <==> #[trigger] reaches_avoiding(self.blocks@, c, d as int)),
                    row@.len() == b,
                    forall|c: int| 0 <= c < b ==> (row@[c] <==> #[trigger] dominates(self.blocks@, d as int, c)),
                decreases nb - b,
            {
                row.push(!reach[b]);
                assert(reaches_avoiding(self.blocks@, b as int, d as int) <==> reach@[b as int]);
                b = b + 1;
            }
            table.push(row);
            d = d + 1;
        }
        table
    }

    /// The immediate dominator of each block, from a dominator table
    pub fn immediate_dominators(&self, dom: &Vec<Vec<bool>>) -> (r: Vec<Option<usize>>)
        requires
            self.wf(),
            dom@.len() == self.blocks@.len(),
            forall|d: int| 0 <= d < dom@.len() ==> (#[trigger] dom@[d])@.len() == self.blocks@.len(),
            forall|d: int, b: int|
                0 <= d < self.blocks@.len() && 0 <= b < self.blocks@.len() ==> (dom@[d]@[b] <==> #[trigger] dominates(
                    self.blocks@,
                    d,
                    b,
                )),
        ensures
            r@.len() == self.blocks@.len(),
            forall|b: int| 0 <= b < self.blocks@.len() ==> match #[trigger] r@[b] {
                Some(d) => is_idom(self.blocks@, d as int, b),
                None => forall|d: int| 0 <= d < self.blocks@.len() ==> !is_idom(self.blocks@, d, b),
            },
    {
        let nb = self.blocks.len();
        let mut out: Vec<Option<usize>> = Vec::new();
        let mut b: usize = 0;
        while b < nb
            invariant
                nb == self.blocks@.len(),
                dom@.len() == nb,
                forall|d: int| 0 <= d < dom@.len() ==> (#[trigger] dom@[d])@.len() == nb,
                forall|d: int, c: int|
                    0 <= d < nb && 0 <= c < nb ==> (dom@[d]@[c] <==> #[trigger] dominates(self.blocks@, d, c)),
                b <= nb,
                out@.len() == b,
                forall|c: int| 0 <= c < b ==> match #[trigger] out@[c] {
                    Some(d) => is_idom(self.blocks@, d as int, c),
                    None => forall|d: int| 0 <= d < nb ==> !is_idom(self.blocks@, d, c),
                },
            decreases nb - b,
        {
            let mut found: Option<usize> = None;
            let mut d: usize = 0;
            while d < nb
                invariant
                    nb == self.blocks@.len(),
                    dom@.len() == nb,
                    forall|x: int| 0 <= x < dom@.len() ==> (#[trigger] dom@[x])@.len() == nb,
                    forall|x: int, c: int|
                        0 <= x < nb && 0 <= c < nb ==> (dom@[x]@[c] <==> #[trigger] dominates(self.blocks@, x, c)),
                    b < nb,
                    d <= nb,
                    match found {
                        Some(x) => is_idom(self.blocks@, x as int, b as int),
                        None => forall|x: int| 0 <= x < d ==> !is_idom(self.blocks@, x, b as int),
                    },
                decreases nb - d,
            {
                if found.is_none() && d != b && dom[d][b] {
                    let mut all = true;
                    let mut e: usize = 0;
                    while e < nb
                        invariant
                            nb == self.blocks@.len(),
                            dom@.len() == nb,
                            forall|x: int| 0 <= x < dom@.len() ==> (#[trigger] dom@[x])@.len() == nb,
                            forall|x: int, c: int|
                                0 <= x < nb && 0 <= c < nb ==> (dom@[x]@[c] <==> #[trigger] dominates(self.blocks@, x, c)),
                            b < nb,
                            d < nb,
                            e <= nb,
                            all <==> forall|x: int|
                                0 <= x < e && x != b && #[trigger] dominates(self.blocks@, x, b as int) ==> dominates(
                                    self.blocks@,
                                    x,
                                    d as int,
                                ),
                        decreases nb - e,
                    {
                        if e != b && dom[e][b] && !dom[e][d] {
                            all = false;
                        }
                        proof {
                            assert(dom@[e as int]@[b as int] <==> dominates(self.blocks@, e as int, b as int));
                            assert(dom@[e as int]@[d as int] <==> dominates(self.blocks@, e as int, d as int));
                        }
                        e = e + 1;
                    }
                    assert(dominates(self.blocks@, d as int, b as int));
                    if all {
                        found = Some(d);
                    } else {
                        proof {
                            assert(!is_idom(self.blocks@, d as int, b as int));
                        }
                    }
                } else {
                    proof {
                        if found.is_none() {
                            assert(dom@[d as int]@[b as int] <==> dominates(self.blocks@, d as int, b as int));
                            assert(!is_idom(self.blocks@, d as int, b as int));
                        }
                    }
                }
                d = d + 1;
            }
            out.push(found);
            proof {
                assert(out@[b as int] == found);
            }
            b = b + 1;
        }
        out
    }

    /// The dominance frontier of each block, from a dominator table
    pub fn dominance_frontiers(&self, dom: &Vec<Vec<bool>>) -> (r: Vec<Vec<usize>>)
        requires
            self.wf(),
            dom@.len() == self.blocks@.len(),
            forall|d: int| 0 <= d < dom@.len() ==> (#[trigger] dom@[d])@.len() == self.blocks@.len(),
            forall|d: int, b: int|
                0 <= d < self.blocks@.len() && 0 <= b < self.blocks@.len() ==> (dom@[d]@[b] <==> #[trigger] dominates(
                    self.blocks@,
                    d,
                    b,
                )),
        ensures
            r@.len() == self.blocks@.len(),
            forall|b: int| 0 <= b < self.blocks@.len() ==> {
                let df = (#[trigger] r@[b])@;
                &&& forall|i: int, j: int| 0 <= i < j < df.len() ==> df[i] < df[j]
                &&& forall|y: int| 0 <= y < self.blocks@.len() ==> (df.contains(y as usize) <==> in_frontier(self.blocks@, b, y))
                &&& forall|i: int| 0 <= i < df.len() ==> df[i] < self.blocks@.len()
            },
    {
        let nb = self.blocks.len();
        let mut out: Vec<Vec<usize>> = Vec::new();
        let mut b: usize = 0;
        while b < nb
            invariant
                self.wf(),
                nb == self.blocks@.len(),
                dom@.len() == nb,
                forall|d: int| 0 <= d < dom@.len() ==> (#[trigger] dom@[d])@.len() == nb,
                forall|d: int, c: int|
                    0 <= d < nb && 0 <= c < nb ==> (dom@[d]@[c] <==> #[trigger] dominates(self.blocks@, d, c)),
                b <= nb,
                out@.len() == b,
                forall|c: int| 0 <= c < b ==> {
                    let df = (#[trigger] out@[c])@;
                    &&& forall|i: int, j: int| 0 <= i < j < df.len() ==> df[i] < df[j]
                    &&& forall|y: int| 0 <= y < nb ==> (df.contains(y as usize) <==> in_frontier(self.blocks@, c, y))
                    &&& forall|i: int| 0 <= i < df.len() ==> df[i] < nb
                },
            decreases nb - b,
        {
            let mut df: Vec<usize> = Vec::new();
            let mut y: usize = 0;
            while y < nb
                invariant
                    self.wf(),
                    nb == self.blocks@.len(),
                    dom@.len() == nb,
                    forall|d: int| 0 <= d < dom@.len() ==> (#[trigger] dom@[d])@.len() == nb,
                    forall|d: int, c: int|
                        0 <= d < nb && 0 <= c < nb ==> (dom@[d]@[c] <==> #[trigger] dominates(self.blocks@, d, c)),
                    b < nb,
                    y <= nb,
                    forall|i: int, j: int| 0 <= i < j < df@.len() ==> df@[i] < df@[j],
                    forall|i: int| 0 <= i < df@.len() ==> df@[i] < y,
                    forall|z: int| 0 <= z < y ==> (df@.contains(z as usize) <==> in_frontier(self.blocks@, b as int, z)),
                decreases nb - y,
            {
                let preds = &self.blocks[y].pred;
                let mut hit = false;
                let mut t: usize = 0;
                while t < preds.len()
                    invariant
                        self.wf(),
                        nb == self.blocks@.len(),
                        dom@.len() == nb,
                        forall|d: int| 0 <= d < dom@.len() ==> (#[trigger] dom@[d])@.len() == nb,
                        forall|d: int, c: int|
                            0 <= d < nb && 0 <= c < nb ==> (dom@[d]@[c] <==> #[trigger] dominates(self.blocks@, d, c)),
                        b < nb,
                        y < nb,
                        preds@ == self.blocks@[y as int].pred@,
                        t <= preds@.len(),
                        hit <==> exists|k: int| 0 <= k < t && dominates(self.blocks@, b as int, #[trigger] preds@[k] as int),
                    decreases preds@.len() - t,
                {
                    let p = preds[t];
                    assert(p < nb);
                    if dom[b][p] {
                        hit = true;
                    }
                    proof {
                        assert(dom@[b as int]@[p as int] <==> dominates(self.blocks@, b as int, p as int));
                        if hit {
                            if !dom@[b as int]@[p as int] {
                                let k = choose|k: int| 0 <= k < t && dominates(self.blocks@, b as int, #[trigger] preds@[k] as int);
                                assert(0 <= k < t + 1);
                            } else {
                                assert(dominates(self.blocks@, b as int, preds@[t as int] as int));
                            }
                        }
                    }
                    t = t + 1;
                }
                let strict = b != y && dom[b][y];
                proof {
                    assert(dom@[b as int]@[y as int] <==> dominates(self.blocks@, b as int, y as int));
                    assert(hit <==> exists|k: int| 0 <= k < self.blocks@[y as int].pred@.len() && dominates(
                        self.blocks@,
                        b as int,
                        #[trigger] self.blocks@[y as int].pred@[k] as int,
                    ));
                }
                let ghost before = df@;
                if hit && !strict {
                    df.push(y);
                }
                proof {
                    assert forall|z: int| 0 <= z < y + 1 implies (df@.contains(z as usize) <==> in_frontier(
                        self.blocks@,
                        b as int,
                        z,
                    )) by {
                        if z < y {
                            if df@.contains(z as usize) && !before.contains(z as usize) {
                                let q = choose|q: int| 0 <= q < df@.len() && df@[q] == z as usize;
                                assert(q == before.len());
                            }
                            if before.contains(z as usize) {
                                let q = choose|q: int| 0 <= q < before.len() && before[q] == z as usize;
                                assert(df@[q] == z as usize);
                            }
                        } else {
                            if hit && !strict {
                                assert(df@[before.len() as int] == y);
                            } else {
                                assert(df@ == before);
                                if before.contains(z as usize) {
                                    let q = choose|q: int| 0 <= q < before.len() && before[q] == z as usize;
                                    assert(before[q] < y);
                                }
                            }
                        }
                    }
                }
                y = y + 1;
            }
            out.push(df);
            proof {
                assert(out@[b as int]@ == df@);
            }
            b = b + 1;
        }
        out
    }
}


// ------------------------------------------------------------------------------------------------
// Phi placement
// ------------------------------------------------------------------------------------------------

/// Every block's range of instructions lies within `ins`
pub open spec fn blocks_fit(g: Seq<Block>, ins: Seq<Instruction>) -> bool {
    forall|k: int| 0 <= k < g.len() ==> (#[trigger] g[k]).start <= g[k].end + 1 && g[k].end < ins.len()
}

/// Block `k` holds an instruction that writes `reg`, a register other than the zero register
/// (whose writes are discarded, so it is never renamed)
pub open spec fn defines(g: Seq<Block>, ins: Seq<Instruction>, k: int, reg: Register) -> bool {
    &&& reg != Register::Zero
    &&& exists|i: int| g[k].start <= i <= g[k].end && #[trigger] ins[i].o_reg == Some(reg)
}

/// `c` runs from a block that writes `reg` through dominance frontiers: each block after the
/// first lies in the dominance frontier of the one before
pub open spec fn frontier_chain(g: Seq<Block>, ins: Seq<Instruction>, reg: Register, c: Seq<int>) -> bool {
    &&& c.len() >= 2
    &&& 0 <= c[0] < g.len()
    &&& defines(g, ins, c[0], reg)
    &&& forall|i: int| 0 <= i < c.len() ==> 0 <= #[trigger] c[i] < g.len()
    &&& forall|i: int| 0 <= i < c.len() - 1 ==> in_frontier(g, #[trigger] c[i], c[i + 1])
}

/// `reg` needs a phi function at the start of block `y`: `y` lies in the iterated dominance
/// frontier of the blocks that write `reg`
pub open spec fn needs_phi(g: Seq<Block>, ins: Seq<Instruction>, reg: Register, y: int) -> bool {
    exists|c: Seq<int>| #[trigger] frontier_chain(g, ins, reg, c) && c.last() == y
}

/// A chain extended by a block of the frontier of its last block is a chain
proof fn lemma_chain_push(g: Seq<Block>, ins: Seq<Instruction>, reg: Register, c: Seq<int>, z: int)
    requires
        frontier_chain(g, ins, reg, c),
        0 <= z < g.len(),
        in_frontier(g, c.last(), z),
    ensures
        frontier_chain(g, ins, reg, c.push(z)),
{
    let c2 = c.push(z);
    assert forall|i: int| 0 <= i < c2.len() implies 0 <= #[trigger] c2[i] < g.len() by {
        if i < c.len() {
            assert(c2[i] == c[i]);
        }
    }
    assert forall|i: int| 0 <= i < c2.len() - 1 implies in_frontier(g, #[trigger] c2[i], c2[i + 1]) by {
        if i < c.len() - 1 {
            assert(c2[i] == c[i] && c2[i + 1] == c[i + 1]);
        } else {
            assert(c2[i] == c.last());
        }
    }
}

/// Every block of a chain after the first lies in a set that holds the frontiers of the blocks
/// that write `reg` and of its own members
proof fn lemma_chain_marked(
    g: Seq<Block>,
    ins: Seq<Instruction>,
    reg: Register,
    marked: Seq<bool>,
    c: Seq<int>,
    k: int,
)
    requires
        marked.len() == g.len(),
        forall|x: int, z: int|
            0 <= x < g.len() && 0 <= z < g.len() && (defines(g, ins, x, reg) || marked[x]) && in_frontier(g, x, z)
                ==> #[trigger] marked[z] || !#[trigger] in_frontier(g, x, z),
        frontier_chain(g, ins, reg, c),
        1 <= k < c.len(),
    ensures
        marked[c[k]],
    decreases k,
{
    if k > 1 {
        lemma_chain_marked(g, ins, reg, marked, c, k - 1);
    }
    let j = k - 1;
    assert(in_frontier(g, c[j], c[j + 1]));
    assert(0 <= c[k] < g.len());
    assert(c[j + 1] == c[k]);
}

impl SSABuilder {
    /// Which blocks write `reg`; none for the zero register
    pub fn def_blocks(&self, instrs: &[Instruction], reg: Register) -> (r: Vec<bool>)
        requires
            blocks_fit(self.blocks@, instrs@),
        ensures
            r@.len() == self.blocks@.len(),
            forall|k: int| 0 <= k < self.blocks@.len() ==> (r@[k] <==> #[trigger] defines(self.blocks@, instrs@, k, reg)),
    {
        let nb = self.blocks.len();
        let mut out: Vec<bool> = Vec::new();
        let mut k: usize = 0;
        while k < nb
            invariant
                nb == self.blocks@.len(),
                blocks_fit(self.blocks@, instrs@),
                k <= nb,
                out@.len() == k,
                forall|q: int| 0 <= q < k ==> (out@[q] <==> #[trigger] defines(self.blocks@, instrs@, q, reg)),
            decreases nb - k,
        {
            let start = self.blocks[k].start;
            let end = self.blocks[k].end;
            assert(start <= end + 1 && end < instrs@.len());
            let mut found = false;
            let mut i = start;
            while i <= end
                invariant
                    start == self.blocks@[k as int].start,
                    end == self.blocks@[k as int].end,
                    end < instrs@.len(),
                    start <= i <= end + 1,
                    found <==> reg != Register::Zero && exists|j: int| start <= j < i && #[trigger] instrs@[j].o_reg == Some(reg),
                decreases end + 1 - i,
            {
                match instrs[i].o_reg {
                    Some(x) => {
                        if x == reg && reg != Register::Zero {
                            found = true;
                        }
                    },
                    None => {},
                }
                proof {
                    if !found && reg != Register::Zero {
                        assert forall|j: int| start <= j < i + 1 implies #[trigger] instrs@[j].o_reg != Some(reg) by {
                            if j == i {
                            }
                        }
                    } else if found {
                        if instrs@[i as int].o_reg != Some(reg) {
                            let j = choose|j: int| start <= j < i && #[trigger] instrs@[j].o_reg == Some(reg);
                            assert(start <= j < i + 1);
                        } else {
                            assert(instrs@[i as int].o_reg == Some(reg));
                        }
                    }
                }
                i = i + 1;
            }
            out.push(found);
            proof {
                assert(out@[k as int] == found);
            }
            k = k + 1;
        }
        out
    }

    /// The blocks that need a phi function for `reg`: the iterated dominance frontier of the
    /// blocks that write it, found with a worklist as in Cytron et al.
    pub fn phi_blocks(&self, df: &Vec<Vec<usize>>, instrs: &[Instruction], reg: Register) -> (r: Vec<bool>)
        requires
            self.wf(),
            blocks_fit(self.blocks@, instrs@),
            df@.len() == self.blocks@.len(),
            forall|b: int| 0 <= b < self.blocks@.len() ==> {
                let d = (#[trigger] df@[b])@;
                &&& forall|y: int| 0 <= y < self.blocks@.len() ==> (d.contains(y as usize) <==> in_frontier(self.blocks@, b, y))
                &&& forall|i: int| 0 <= i < d.len() ==> d[i] < self.blocks@.len()
            },
        ensures
            r@.len() == self.blocks@.len(),
            forall|y: int| 0 <= y < self.blocks@.len() ==> (r@[y] <==> #[trigger] needs_phi(self.blocks@, instrs@, reg, y)),
    {
        let ghost g = self.blocks@;
        let nb = self.blocks.len();
        let defs = self.def_blocks(instrs, reg);
        let mut marked: Vec<bool> = Vec::new();
        let mut queued: Vec<bool> = Vec::new();
        let mut queue: Vec<usize> = Vec::new();
        let mut k: usize = 0;
        while k < nb
            invariant
                nb == g.len(),
                g == self.blocks@,
                defs@.len() == nb,
                k <= nb,
                marked@.len() == k,
                queued@.len() == k,
                forall|q: int| 0 <= q < k ==> !marked@[q],
                forall|q: int| 0 <= q < k ==> (queued@[q] <==> defs@[q]),
                queue@.no_duplicates(),
                forall|q: int| 0 <= q < queue@.len() ==> #[trigger] queue@[q] < k,
                forall|b: int| 0 <= b < k ==> (queued@[b] <==> queue@.contains(b as usize)),
            decreases nb - k,
        {
            marked.push(false);
            queued.push(defs[k]);
            let ghost qold = queue@;
            if defs[k] {
                queue.push(k);
                proof {
                    assert(!qold.contains(k));
                }
            }
            proof {
                assert forall|b: int| 0 <= b < k + 1 implies (queued@[b] <==> queue@.contains(b as usize)) by {
                    if b < k {
                        if queue@.contains(b as usize) && defs@[k as int] {
                            let q = choose|q: int| 0 <= q < queue@.len() && queue@[q] == b as usize;
                            assert(q < qold.len());
                            assert(qold[q] == b as usize);
                        }
                        if qold.contains(b as usize) {
                            let q = choose|q: int| 0 <= q < qold.len() && qold[q] == b as usize;
                            assert(queue@[q] == b as usize);
                        }
                    } else {
                        if defs@[k as int] {
                            assert(queue@[queue@.len() - 1] == k);
                        } else {
                            assert(queue@ == qold);
                        }
                    }
                }
            }
            k = k + 1;
        }
        let mut head: usize = 0;
        while head < queue.len()
            invariant
                self.wf(),
                nb == g.len(),
                g == self.blocks@,
                df@.len() == nb,
                forall|b: int| 0 <= b < nb ==> {
                    let d = (#[trigger] df@[b])@;
                    &&& forall|y: int| 0 <= y < nb ==> (d.contains(y as usize) <==> in_frontier(g, b, y))
                    &&& forall|i: int| 0 <= i < d.len() ==> d[i] < nb
                },
                defs@.len() == nb,
                forall|b: int| 0 <= b < nb ==> (defs@[b] <==> #[trigger] defines(g, instrs@, b, reg)),
                marked@.len() == nb,
                queued@.len() == nb,
                head <= queue@.len(),
                queue@.no_duplicates(),
                forall|q: int| 0 <= q < queue@.len() ==> #[trigger] queue@[q] < nb,
                forall|b: int| 0 <= b < nb ==> (queued@[b] <==> queue@.contains(b as usize)),
                forall|b: int| 0 <= b < nb ==> (queued@[b] <==> (defs@[b] || marked@[b])),
                forall|b: int| 0 <= b < nb && marked@[b] ==> #[trigger] needs_phi(g, instrs@, reg, b),
                forall|q: int, z: int|
                    0 <= q < head && 0 <= z < nb && #[trigger] in_frontier(g, queue@[q] as int, z) ==> marked@[z],
            decreases nb - head,
        {
            proof {
                lemma_distinct_bound(queue@, nb as int);
            }
            let x = queue[head];
            assert(queue@.contains(x));
            let ghost xm = marked@[x as int];
            proof {
                if xm {
                    assert(needs_phi(g, instrs@, reg, x as int));
                }
            }
            let ghost cx: Seq<int> = if xm {
                choose|c: Seq<int>| #[trigger] frontier_chain(g, instrs@, reg, c) && c.last() == x as int
            } else {
                seq![x as int]
            };
            proof {
                assert(queued@[x as int]);
                assert(defs@[x as int] || marked@[x as int]);
            }
            let fr = &df[x];
            let mut t: usize = 0;
            while t < fr.len()
                invariant
                    self.wf(),
                    nb == g.len(),
                    g == self.blocks@,
                    df@.len() == nb,
                    forall|b: int| 0 <= b < nb ==> {
                        let d = (#[trigger] df@[b])@;
                        &&& forall|y: int| 0 <= y < nb ==> (d.contains(y as usize) <==> in_frontier(g, b, y))
                        &&& forall|i: int| 0 <= i < d.len() ==> d[i] < nb
                    },
                    x < nb,
                    fr@ == df@[x as int]@,
                    x == queue@[head as int],
                    head < queue@.len(),
                    xm ==> frontier_chain(g, instrs@, reg, cx) && cx.last() == x as int,
                    !xm ==> cx == seq![x as int] && defs@[x as int],
                    defs@.len() == nb,
                    forall|b: int| 0 <= b < nb ==> (defs@[b] <==> #[trigger] defines(g, instrs@, b, reg)),
                    marked@.len() == nb,
                    queued@.len() == nb,
                    t <= fr@.len(),
                    queue@.no_duplicates(),
                    forall|q: int| 0 <= q < queue@.len() ==> #[trigger] queue@[q] < nb,
                    forall|b: int| 0 <= b < nb ==> (queued@[b] <==> queue@.contains(b as usize)),
                    forall|b: int| 0 <= b < nb ==> (queued@[b] <==> (defs@[b] || marked@[b])),
                    forall|b: int| 0 <= b < nb && marked@[b] ==> #[trigger] needs_phi(g, instrs@, reg, b),
                    forall|q: int, z: int|
                        0 <= q < head && 0 <= z < nb && #[trigger] in_frontier(g, queue@[q] as int, z) ==> marked@[z],
                    forall|i: int| 0 <= i < t ==> marked@[#[trigger] fr@[i] as int],
                decreases fr@.len() - t,
            {
                let z = fr[t];
                assert(z < nb);
                assert(fr@.contains(z));
                assert(in_frontier(g, x as int, z as int));
                if !marked[z] {
                    proof {
                        let c2 = cx.push(z as int);
                        if xm {
                            lemma_chain_push(g, instrs@, reg, cx, z as int);
                        } else {
                            assert(frontier_chain(g, instrs@, reg, c2)) by {
                                assert(c2[0] == x as int && c2[1] == z as int);
                                assert forall|i: int| 0 <= i < c2.len() implies 0 <= #[trigger] c2[i] < g.len() by {}
                                assert forall|i: int| 0 <= i < c2.len() - 1 implies in_frontier(g, #[trigger] c2[i], c2[i + 1]) by {
                                    assert(i == 0);
                                }
                            }
                        }
                        assert(needs_phi(g, instrs@, reg, z as int));
                    }
                    let was_queued = queued[z];
                    marked.set(z, true);
                    if !was_queued {
                        let ghost qold = queue@;
                        queued.set(z, true);
                        queue.push(z);
                        proof {
                            assert(!qold.contains(z));
                            assert(queue@.drop_last() =~= qold);
                            assert forall|b: int| 0 <= b < nb implies (queued@[b] <==> queue@.contains(b as usize)) by {
                                if b != z {
                                    if queue@.contains(b as usize) {
                                        let q = choose|q: int| 0 <= q < queue@.len() && queue@[q] == b as usize;
                                        assert(q < qold.len());
                                        assert(qold[q] == b as usize);
                                    }
                                    if qold.contains(b as usize) {
                                        let q = choose|q: int| 0 <= q < qold.len() && qold[q] == b as usize;
                                        assert(queue@[q] == b as usize);
                                    }
                                } else {
                                    assert(queue@[queue@.len() - 1] == z);
                                }
                            }
                        }
                    }
                }
                t = t + 1;
            }
            proof {
                assert forall|z: int| 0 <= z < nb && #[trigger] in_frontier(g, queue@[head as int] as int, z) implies marked@[z] by {
                    assert(fr@.contains(z as usize));
                    let i = choose|i: int| 0 <= i < fr@.len() && fr@[i] == z as usize;
                    assert(marked@[fr@[i] as int]);
                }
            }
            head = head + 1;
        }
        proof {
            assert forall|y: int| 0 <= y < nb implies (marked@[y] <==> #[trigger] needs_phi(g, instrs@, reg, y)) by {
                if needs_phi(g, instrs@, reg, y) {
                    let c = choose|c: Seq<int>| #[trigger] frontier_chain(g, instrs@, reg, c) && c.last() == y;
                    assert forall|x2: int, z2: int|
                        0 <= x2 < g.len() && 0 <= z2 < g.len() && (defines(g, instrs@, x2, reg) || marked@[x2]) && in_frontier(g, x2, z2)
                            implies #[trigger] marked@[z2] || !#[trigger] in_frontier(g, x2, z2) by {
                        assert(defs@[x2] || marked@[x2]);
                        assert(queued@[x2]);
                        assert(queue@.contains(x2 as usize));
                        let q = choose|q: int| 0 <= q < queue@.len() && queue@[q] == x2 as usize;
                        assert(in_frontier(g, queue@[q] as int, z2));
                    }
                    lemma_chain_marked(g, instrs@, reg, marked@, c, c.len() - 1);
                }
            }
        }
        marked
    }
}


/// Where each register needs phi functions: `phi_sites[r][b]` for register number `r`
pub open spec fn phis_at_iterated_frontier(r: SSABuilder, ins: Seq<Instruction>) -> bool {
    &&& r.phi_sites@.len() == NUMREGS
    &&& forall|q: int| 0 <= q < NUMREGS ==> (#[trigger] r.phi_sites@[q])@.len() == r.blocks@.len()
    &&& forall|q: int, y: int|
        0 <= q < NUMREGS && 0 <= y < r.blocks@.len() ==> (r.phi_sites@[q]@[y] <==> #[trigger] needs_phi(
            r.blocks@,
            ins,
            reg_of(q as u32),
            y,
        ))
}

impl SSABuilder {
    /// Convert the function to single static assignment form: compute the dominator table, the
    /// immediate dominators and the dominance frontiers, place phi functions at the iterated
    /// frontiers of each register's definitions, and rename every definition and use. The
    /// blocks and instructions stay as they are: the phi functions are recorded in `phi_sites`,
    /// `phi_versions` and `phi_args`, the new names in `def_versions` and `use_versions`
    pub fn build_ssa(&mut self, instrs: &[Instruction])
        requires
            old(self).wf(),
            blocks_contiguous(old(self).blocks@, instrs@.len() as int),
            instrs@.len() < usize::MAX / 2,
        ensures
            final(self).wf(),
            final(self).blocks == old(self).blocks,
            final(self).edges == old(self).edges,
            final(self).leader_set == old(self).leader_set,
            dom_is_dominance(*final(self)),
            idom_is_immediate_dominator(*final(self)),
            df_is_dominance_frontier(*final(self)),
            phis_at_iterated_frontier(*final(self), instrs@),
            single_assignment(*final(self), instrs@),
            uses_reaching_defs(*final(self), instrs@),
    {
        proof {
            lemma_contiguous_fit(self.blocks@, instrs@.len() as int);
            assert(blocks_fit(self.blocks@, instrs@));
        }
        let dom = self.dominator_table();
        let idom = self.immediate_dominators(&dom);
        let df = self.dominance_frontiers(&dom);
        let mut sites: Vec<Vec<bool>> = Vec::new();
        let mut q: u32 = 0;
        while q < 33
            invariant
                self.wf(),
                blocks_fit(self.blocks@, instrs@),
                df@.len() == self.blocks@.len(),
                forall|b: int| 0 <= b < self.blocks@.len() ==> {
                    let d = (#[trigger] df@[b])@;
                    &&& forall|i: int, j: int| 0 <= i < j < d.len() ==> d[i] < d[j]
                    &&& forall|y: int| 0 <= y < self.blocks@.len() ==> (d.contains(y as usize) <==> in_frontier(self.blocks@, b, y))
                    &&& forall|i: int| 0 <= i < d.len() ==> d[i] < self.blocks@.len()
                },
                q <= 33,
                sites@.len() == q,
                forall|k: int| 0 <= k < q ==> (#[trigger] sites@[k])@.len() == self.blocks@.len(),
                forall|k: int, y: int|
                    0 <= k < q && 0 <= y < self.blocks@.len() ==> (sites@[k]@[y] <==> #[trigger] needs_phi(
                        self.blocks@,
                        instrs@,
                        reg_of(k as u32),
                        y,
                    )),
            decreases 33 - q,
        {
            let reg = Register::from(q);
            let row = self.phi_blocks(&df, instrs, reg);
            sites.push(row);
            q = q + 1;
        }
        self.dom = dom;
        self.idom = idom;
        self.dominance_frontier = df;
        self.phi_sites = sites;
        proof {
            assert forall|b: int| 0 <= b < self.blocks@.len() implies (#[trigger] self.idom@[b] matches Some(d) ==> d
                < self.blocks@.len()) by {
                if let Some(d) = self.idom@[b] {
                    assert(is_idom(self.blocks@, d as int, b));
                }
            }
        }
        self.rename(instrs);
    }
}


// ------------------------------------------------------------------------------------------------
// Renaming
// ------------------------------------------------------------------------------------------------

/// The last instruction in `lo..i` that writes `reg`
pub open spec fn last_def(ins: Seq<Instruction>, lo: int, i: int, reg: Register) -> Option<int>
    decreases i - lo,
{
    if i <= lo {
        None
    } else if ins[i - 1].o_reg == Some(reg) {
        Some(i - 1)
    } else {
        last_def(ins, lo, i - 1, reg)
    }
}

/// How many of the first `k` blocks have a phi function in `row`
pub open spec fn phi_count(row: Seq<bool>, k: int) -> int
    decreases k,
{
    if k <= 0 {
        0
    } else {
        phi_count(row, k - 1) + if row[k - 1] { 1int } else { 0int }
    }
}

/// How many of the first `i` instructions write `reg`
pub open spec fn defs_before(ins: Seq<Instruction>, i: int, reg: Register) -> int
    decreases i,
{
    if i <= 0 {
        0
    } else {
        defs_before(ins, i - 1, reg) + if ins[i - 1].o_reg == Some(reg) { 1int } else { 0int }
    }
}

// The definitions of a register are numbered 1, 2, ... in program order, block after block; in
// each block its phi function (from `row`, the register's row of phi sites) comes before the
// instructions of the block.

/// The version that the phi function of `reg` at block `b` defines
pub open spec fn phi_version(g: Seq<Block>, row: Seq<bool>, ins: Seq<Instruction>, reg: Register, b: int) -> int {
    phi_count(row, b) + defs_before(ins, g[b].start as int, reg) + 1
}

/// The version that instruction `i` of block `k` defines when it writes `reg`
pub open spec fn def_version(row: Seq<bool>, ins: Seq<Instruction>, reg: Register, k: int, i: int) -> int {
    phi_count(row, k + 1) + defs_before(ins, i, reg) + 1
}

/// How many definitions `reg` has, phi functions included
pub open spec fn def_total(row: Seq<bool>, ins: Seq<Instruction>, reg: Register) -> int {
    phi_count(row, row.len() as int) + defs_before(ins, ins.len() as int, reg)
}

/// Instruction `i` lies in block `k` and writes `reg`
pub open spec fn def_site(g: Seq<Block>, ins: Seq<Instruction>, reg: Register, k: int, i: int) -> bool {
    0 <= k < g.len() && g[k].start <= i <= g[k].end && ins[i].o_reg == Some(reg)
}

/// Some definition of `reg`, a phi function or an instruction, defines version `v`
pub open spec fn version_defined(g: Seq<Block>, row: Seq<bool>, ins: Seq<Instruction>, reg: Register, v: int) -> bool {
    ||| exists|b: int| 0 <= b < g.len() && row[b] && #[trigger] phi_version(g, row, ins, reg, b) == v
    ||| exists|k: int, i: int| def_site(g, ins, reg, k, i) && #[trigger] def_version(row, ins, reg, k, i) == v
}

/// The version of `reg` on entry to block `b`: that of its phi function where it has one,
/// otherwise the version on exit from its immediate dominator, and 0 at the entry block (at most
/// `fuel` steps up the dominator tree); the zero register is never renamed and keeps version 0
pub open spec fn version_in(
    g: Seq<Block>,
    idom: Seq<Option<usize>>,
    phi: Seq<Vec<bool>>,
    ins: Seq<Instruction>,
    reg: Register,
    b: int,
    fuel: nat,
) -> int
    decreases fuel, 0nat,
{
    if reg == Register::Zero {
        0
    } else if phi[reg.id()]@[b] {
        phi_version(g, phi[reg.id()]@, ins, reg, b)
    } else if fuel == 0 {
        0
    } else {
        match idom[b] {
            Some(d) => version_out(g, idom, phi, ins, reg, d as int, (fuel - 1) as nat),
            None => 0,
        }
    }
}

/// The version of `reg` on exit from block `b`: that of its last definition in `b`, otherwise
/// the version on entry
pub open spec fn version_out(
    g: Seq<Block>,
    idom: Seq<Option<usize>>,
    phi: Seq<Vec<bool>>,
    ins: Seq<Instruction>,
    reg: Register,
    b: int,
    fuel: nat,
) -> int
    decreases fuel, 1nat,
{
    if reg == Register::Zero {
        0
    } else {
        match last_def(ins, g[b].start as int, g[b].end + 1, reg) {
            Some(j) => def_version(phi[reg.id()]@, ins, reg, b, j),
            None => version_in(g, idom, phi, ins, reg, b, fuel),
        }
    }
}

/// The version that a use of `reg` by instruction `i` of block `b` reads: the last definition
/// before it in the block, otherwise the version on entry to the block
pub open spec fn use_version(r: SSABuilder, ins: Seq<Instruction>, reg: Register, b: int, i: int) -> int {
    if reg == Register::Zero {
        0
    } else {
        match last_def(ins, r.blocks@[b].start as int, i, reg) {
            Some(j) => def_version(r.phi_sites@[reg.id()]@, ins, reg, b, j),
            None => version_in(r.blocks@, r.idom@, r.phi_sites@, ins, reg, b, r.blocks@.len() as nat),
        }
    }
}

/// Each definition of a register other than the zero register gets its own version, numbered
/// in program order: `def_versions[i]` for instruction `i` (0 where it writes no such register),
/// `phi_versions[r][b]` for the phi function of register number `r` at block `b` (0 where there
/// is none)
pub open spec fn single_assignment(r: SSABuilder, ins: Seq<Instruction>) -> bool {
    &&& r.def_versions@.len() == ins.len()
    &&& forall|k: int, i: int|
        #![trigger r.def_versions@[i], r.blocks@[k]]
        0 <= k < r.blocks@.len() && r.blocks@[k].start <= i <= r.blocks@[k].end ==> r.def_versions@[i]
            == match ins[i].o_reg {
            Some(reg) => if reg == Register::Zero {
                0
            } else {
                def_version(r.phi_sites@[reg.id()]@, ins, reg, k, i)
            },
            None => 0,
        }
    &&& r.phi_versions@.len() == NUMREGS
    &&& forall|q: int| 0 <= q < NUMREGS ==> (#[trigger] r.phi_versions@[q])@.len() == r.blocks@.len()
    &&& forall|q: int, b: int|
        0 <= q < NUMREGS && 0 <= b < r.blocks@.len() ==> #[trigger] r.phi_versions@[q]@[b] == if r.phi_sites@[q]@[b] {
            phi_version(r.blocks@, r.phi_sites@[q]@, ins, reg_of(q as u32), b)
        } else {
            0
        }
}

/// `us` holds, for each input of instruction `i` of block `k`, the version it reads: that of
/// the reaching definition for a register, 0 for an immediate
pub open spec fn uses_ok(r: SSABuilder, ins: Seq<Instruction>, us: Seq<usize>, k: int, i: int) -> bool {
    &&& us.len() == ins[i].i_reg@.len()
    &&& forall|m: int| 0 <= m < us.len() ==> #[trigger] us[m] == match ins[i].i_reg@[m] {
        Val::Reg(reg) => use_version(r, ins, reg, k, i),
        _ => 0,
    }
}

/// Every input and every phi argument reads the version of the definition that reaches it
/// along the dominator tree
pub open spec fn uses_reaching_defs(r: SSABuilder, ins: Seq<Instruction>) -> bool {
    &&& r.use_versions@.len() == ins.len()
    &&& forall|k: int, i: int|
        #![trigger r.use_versions@[i], r.blocks@[k]]
        0 <= k < r.blocks@.len() && r.blocks@[k].start <= i <= r.blocks@[k].end ==> uses_ok(
            r,
            ins,
            r.use_versions@[i]@,
            k,
            i,
        )
    &&& r.phi_args@.len() == NUMREGS
    &&& forall|q: int| 0 <= q < NUMREGS ==> (#[trigger] r.phi_args@[q])@.len() == r.blocks@.len()
    &&& forall|q: int, b: int| 0 <= q < NUMREGS && 0 <= b < r.blocks@.len() ==> {
        let args = (#[trigger] r.phi_args@[q]@[b])@;
        let preds = r.blocks@[b].pred@;
        &&& r.phi_sites@[q]@[b] ==> args.len() == preds.len() && forall|t: int| 0 <= t < preds.len() ==> #[trigger] args[t]
            == version_out(r.blocks@, r.idom@, r.phi_sites@, ins, reg_of(q as u32), preds[t] as int, r.blocks@.len() as nat)
        &&& !r.phi_sites@[q]@[b] ==> args.len() == 0
    }
}

/// What renaming needs: a contiguous, well-formed graph with its dominators and phi sites
pub open spec fn rename_ready(r: SSABuilder, ins: Seq<Instruction>) -> bool {
    &&& r.wf()
    &&& blocks_contiguous(r.blocks@, ins.len() as int)
    &&& ins.len() < usize::MAX / 2
    &&& r.idom@.len() == r.blocks@.len()
    &&& forall|b: int| 0 <= b < r.blocks@.len() ==> (#[trigger] r.idom@[b] matches Some(d) ==> d < r.blocks@.len())
    &&& r.phi_sites@.len() == NUMREGS
    &&& forall|q: int| 0 <= q < NUMREGS ==> (#[trigger] r.phi_sites@[q])@.len() == r.blocks@.len()
}

/// Version `v` of `reg` is 0, or is defined in a block that dominates block `b`: by the phi
/// function of `reg` there or by an instruction there that writes `reg`
pub open spec fn defined_above(g: Seq<Block>, phi: Seq<Vec<bool>>, ins: Seq<Instruction>, reg: Register, b: int, v: int) -> bool {
    ||| v == 0
    ||| exists|d: int|
        0 <= d < g.len() && #[trigger] dominates(g, d, b) && ((phi[reg.id()]@[d] && v == phi_version(
            g,
            phi[reg.id()]@,
            ins,
            reg,
            d,
        )) || exists|j: int| def_site(g, ins, reg, d, j) && v == def_version(phi[reg.id()]@, ins, reg, d, j))
}

/// The last definition of `reg` in `lo..i` lies there and writes `reg`
proof fn lemma_last_def(ins: Seq<Instruction>, lo: int, i: int, reg: Register)
    ensures
        last_def(ins, lo, i, reg) matches Some(j) ==> lo <= j < i && ins[j].o_reg == Some(reg),
    decreases i - lo,
{
    if i > lo && ins[i - 1].o_reg != Some(reg) {
        lemma_last_def(ins, lo, i - 1, reg);
    }
}

/// Every block dominates itself
proof fn lemma_dominates_self(g: Seq<Block>, b: int)
    ensures
        dominates(g, b, b),
{
    if reaches_avoiding(g, b, b) {
        let p = choose|p: Seq<int>| #[trigger] is_cfg_path(g, p) && p.last() == b && forall|i: int| 0 <= i < p.len() ==> p[i] != b;
        assert(p[p.len() - 1] == b);
    }
}

/// What a block sees of a register on entry and passes on at its exit is defined in a block
/// that dominates it
proof fn lemma_versions_from_above(r: SSABuilder, ins: Seq<Instruction>, reg: Register, b: int, fuel: nat)
    requires
        idom_is_immediate_dominator(r),
        0 <= b < r.blocks@.len(),
    ensures
        defined_above(r.blocks@, r.phi_sites@, ins, reg, b, version_in(r.blocks@, r.idom@, r.phi_sites@, ins, reg, b, fuel)),
        defined_above(r.blocks@, r.phi_sites@, ins, reg, b, version_out(r.blocks@, r.idom@, r.phi_sites@, ins, reg, b, fuel)),
    decreases fuel,
{
    let g = r.blocks@;
    let phi = r.phi_sites@;
    lemma_dominates_self(g, b);
    let vin = version_in(g, r.idom@, phi, ins, reg, b, fuel);
    if reg != Register::Zero && !phi[reg.id()]@[b] && fuel > 0 {
        if let Some(d) = r.idom@[b] {
            assert(is_idom(g, d as int, b));
            lemma_versions_from_above(r, ins, reg, d as int, (fuel - 1) as nat);
            let vd = version_out(g, r.idom@, phi, ins, reg, d as int, (fuel - 1) as nat);
            assert(vin == vd);
            if vd != 0 {
                let s = choose|s: int|
                    0 <= s < g.len() && #[trigger] dominates(g, s, d as int) && ((phi[reg.id()]@[s] && vd == phi_version(
                        g,
                        phi[reg.id()]@,
                        ins,
                        reg,
                        s,
                    )) || exists|j: int| def_site(g, ins, reg, s, j) && vd == def_version(phi[reg.id()]@, ins, reg, s, j));
                lemma_dominates_trans(g, s, d as int, b);
            }
        }
    }
    if reg != Register::Zero {
        lemma_last_def(ins, g[b].start as int, g[b].end + 1, reg);
        if let Some(j) = last_def(ins, g[b].start as int, g[b].end + 1, reg) {
            assert(def_site(g, ins, reg, b, j));
        }
    }
}

/// Every register an instruction reads gets the version of a definition that dominates the
/// read: a write earlier in the same block, or a phi function or write in a block that
/// dominates the block; version 0 where no definition reaches it along the dominator tree
pub proof fn lemma_uses_read_dominating_defs(r: SSABuilder, ins: Seq<Instruction>, reg: Register, k: int, i: int)
    requires
        idom_is_immediate_dominator(r),
        0 <= k < r.blocks@.len(),
        r.blocks@[k].start <= i <= r.blocks@[k].end,
    ensures
        ({
            let v = use_version(r, ins, reg, k, i);
            ||| exists|j: int|
                r.blocks@[k].start <= j < i && def_site(r.blocks@, ins, reg, k, j) && v == def_version(
                    r.phi_sites@[reg.id()]@,
                    ins,
                    reg,
                    k,
                    j,
                )
            ||| defined_above(r.blocks@, r.phi_sites@, ins, reg, k, v)
        }),
{
    lemma_versions_from_above(r, ins, reg, k, r.blocks@.len() as nat);
    if reg != Register::Zero {
        lemma_last_def(ins, r.blocks@[k].start as int, i, reg);
        if let Some(j) = last_def(ins, r.blocks@[k].start as int, i, reg) {
            assert(def_site(r.blocks@, ins, reg, k, j));
        }
    }
}

/// The last block ends at the last instruction, and every block lies within the instructions
proof fn lemma_contiguous_fit(g: Seq<Block>, n: int)
    requires
        blocks_contiguous(g, n),
    ensures
        forall|k: int| 0 <= k < g.len() ==> #[trigger] g[k].end < n,
        g.len() <= n,
{
    assert forall|k: int| 0 <= k < g.len() implies #[trigger] g[k].end < n && g[k].start >= k by {
        lemma_contiguous_step(g, n, k);
    }
    lemma_contiguous_step(g, n, g.len() - 1);
}

proof fn lemma_contiguous_step(g: Seq<Block>, n: int, k: int)
    requires
        blocks_contiguous(g, n),
        0 <= k < g.len(),
    ensures
        g[k].end < n,
        g[k].start >= k,
        g[k].end + (g.len() - 1 - k) < n,
    decreases g.len() - k,
{
    if k < g.len() - 1 {
        lemma_contiguous_step(g, n, k + 1);
        assert(g[k + 1].start == g[(k + 1) - 1].end + 1);
    }
    lemma_contiguous_up(g, n, k);
}

/// Earlier blocks end before later ones start
proof fn lemma_contiguous_order(g: Seq<Block>, n: int, a: int, b: int)
    requires
        blocks_contiguous(g, n),
        0 <= a < b < g.len(),
    ensures
        g[a].end < g[b].start,
    decreases b - a,
{
    assert(g[b].start == g[b - 1].end + 1);
    if a < b - 1 {
        lemma_contiguous_order(g, n, a, b - 1);
        assert(g[b - 1].start <= g[b - 1].end);
    }
}

proof fn lemma_contiguous_up(g: Seq<Block>, n: int, k: int)
    requires
        blocks_contiguous(g, n),
        0 <= k < g.len(),
    ensures
        g[k].start >= k,
    decreases k,
{
    if k > 0 {
        lemma_contiguous_up(g, n, k - 1);
        assert(g[k].start == g[k - 1].end + 1);
    }
}

/// Counting phi functions over more blocks finds at least as many, and at most one per block
proof fn lemma_phi_count_mono(row: Seq<bool>, a: int, b: int)
    requires
        0 <= a <= b <= row.len(),
    ensures
        0 <= phi_count(row, a) <= phi_count(row, b),
        phi_count(row, b) - phi_count(row, a) <= b - a,
        phi_count(row, a) <= a,
    decreases b,
{
    lemma_phi_count_bound(row, a);
    if b > a {
        lemma_phi_count_mono(row, a, b - 1);
    }
}

proof fn lemma_phi_count_bound(row: Seq<bool>, a: int)
    requires
        0 <= a <= row.len(),
    ensures
        0 <= phi_count(row, a) <= a,
    decreases a,
{
    if a > 0 {
        lemma_phi_count_bound(row, a - 1);
    }
}

/// Counting definitions over more instructions finds at least as many, and at most one per
/// instruction
proof fn lemma_defs_before_mono(ins: Seq<Instruction>, reg: Register, a: int, b: int)
    requires
        0 <= a <= b <= ins.len(),
    ensures
        0 <= defs_before(ins, a, reg) <= defs_before(ins, b, reg),
        defs_before(ins, b, reg) - defs_before(ins, a, reg) <= b - a,
        defs_before(ins, a, reg) <= a,
    decreases b,
{
    lemma_defs_before_bound(ins, reg, a);
    if b > a {
        lemma_defs_before_mono(ins, reg, a, b - 1);
    }
}

proof fn lemma_defs_before_bound(ins: Seq<Instruction>, reg: Register, a: int)
    requires
        0 <= a <= ins.len(),
    ensures
        0 <= defs_before(ins, a, reg) <= a,
    decreases a,
{
    if a > 0 {
        lemma_defs_before_bound(ins, reg, a - 1);
    }
}

/// Every count between those at `lo` and `hi` is the count just before some definition there
proof fn lemma_defs_hit(ins: Seq<Instruction>, reg: Register, lo: int, hi: int, t: int)
    requires
        0 <= lo <= hi <= ins.len(),
        defs_before(ins, lo, reg) <= t < defs_before(ins, hi, reg),
    ensures
        exists|i: int| lo <= i < hi && ins[i].o_reg == Some(reg) && #[trigger] defs_before(ins, i, reg) == t,
    decreases hi,
{
    lemma_defs_before_mono(ins, reg, lo, hi - 1);
    if t < defs_before(ins, hi - 1, reg) {
        lemma_defs_hit(ins, reg, lo, hi - 1, t);
    } else {
        assert(ins[hi - 1].o_reg == Some(reg) && defs_before(ins, hi - 1, reg) == t);
    }
}

/// A definition that comes later in the program gets a higher version
proof fn lemma_def_order(
    g: Seq<Block>,
    row: Seq<bool>,
    ins: Seq<Instruction>,
    reg: Register,
    k1: int,
    i1: int,
    k2: int,
    i2: int,
)
    requires
        blocks_contiguous(g, ins.len() as int),
        row.len() == g.len(),
        def_site(g, ins, reg, k1, i1),
        def_site(g, ins, reg, k2, i2),
        i1 < i2,
    ensures
        def_version(row, ins, reg, k1, i1) < def_version(row, ins, reg, k2, i2),
{
    lemma_contiguous_fit(g, ins.len() as int);
    if k2 < k1 {
        lemma_contiguous_order(g, ins.len() as int, k2, k1);
    }
    lemma_phi_count_mono(row, k1 + 1, k2 + 1);
    lemma_defs_before_mono(ins, reg, i1 + 1, i2);
}

/// A phi function at a later block gets a higher version
proof fn lemma_phi_order(g: Seq<Block>, row: Seq<bool>, ins: Seq<Instruction>, reg: Register, b1: int, b2: int)
    requires
        blocks_contiguous(g, ins.len() as int),
        row.len() == g.len(),
        0 <= b1 < b2 < g.len(),
        row[b1],
    ensures
        phi_version(g, row, ins, reg, b1) < phi_version(g, row, ins, reg, b2),
{
    lemma_contiguous_fit(g, ins.len() as int);
    lemma_contiguous_order(g, ins.len() as int, b1, b2);
    lemma_phi_count_mono(row, b1 + 1, b2);
    lemma_defs_before_mono(ins, reg, g[b1].start as int, g[b2].start as int);
}

/// A phi function and an instruction never define the same version: the phi function comes
/// first when its block is not after the instruction's
proof fn lemma_phi_def_order(
    g: Seq<Block>,
    row: Seq<bool>,
    ins: Seq<Instruction>,
    reg: Register,
    b: int,
    k: int,
    i: int,
)
    requires
        blocks_contiguous(g, ins.len() as int),
        row.len() == g.len(),
        0 <= b < g.len(),
        row[b],
        def_site(g, ins, reg, k, i),
    ensures
        b <= k ==> phi_version(g, row, ins, reg, b) < def_version(row, ins, reg, k, i),
        k < b ==> def_version(row, ins, reg, k, i) < phi_version(g, row, ins, reg, b),
{
    lemma_contiguous_fit(g, ins.len() as int);
    if b < k {
        lemma_contiguous_order(g, ins.len() as int, b, k);
        lemma_phi_count_mono(row, b + 1, k + 1);
        lemma_defs_before_mono(ins, reg, g[b].start as int, i);
    } else if b == k {
        lemma_defs_before_mono(ins, reg, g[b].start as int, i);
    } else {
        lemma_contiguous_order(g, ins.len() as int, k, b);
        lemma_phi_count_mono(row, k + 1, b);
        lemma_defs_before_mono(ins, reg, i + 1, g[b].start as int);
    }
}

/// Every version up to the number of definitions in the first `k` blocks is defined in them
proof fn lemma_versions_onto(g: Seq<Block>, row: Seq<bool>, ins: Seq<Instruction>, reg: Register, k: int)
    requires
        blocks_contiguous(g, ins.len() as int),
        row.len() == g.len(),
        0 <= k <= g.len(),
    ensures
        forall|v: int|
            1 <= v <= phi_count(row, k) + defs_before(ins, if k < g.len() { g[k].start as int } else { ins.len() as int }, reg)
                ==> version_defined(g, row, ins, reg, v),
    decreases k,
{
    if k > 0 {
        let p = k - 1;
        lemma_versions_onto(g, row, ins, reg, p);
        lemma_contiguous_fit(g, ins.len() as int);
        let lo = g[p].start as int;
        let hi = g[p].end + 1;
        assert(hi == if k < g.len() { g[k].start as int } else { ins.len() as int });
        lemma_defs_before_mono(ins, reg, lo, hi);
        assert forall|v: int|
            1 <= v <= phi_count(row, k) + defs_before(ins, hi, reg) implies version_defined(g, row, ins, reg, v) by {
            if v > phi_count(row, p) + defs_before(ins, lo, reg) {
                if row[p] && v == phi_count(row, p) + defs_before(ins, lo, reg) + 1 {
                    assert(phi_version(g, row, ins, reg, p) == v);
                } else {
                    let t = v - phi_count(row, k) - 1;
                    lemma_defs_hit(ins, reg, lo, hi, t);
                    let i = choose|i: int| lo <= i < hi && ins[i].o_reg == Some(reg) && #[trigger] defs_before(ins, i, reg) == t;
                    assert(def_site(g, ins, reg, p, i));
                    assert(def_version(row, ins, reg, p, i) == v);
                }
            }
        }
    }
}

/// The versions of a register run from 1 to its number of definitions, phi functions included,
/// and each of them is defined exactly once: by one phi function or by one instruction
pub proof fn lemma_versions_numbered(g: Seq<Block>, row: Seq<bool>, ins: Seq<Instruction>, reg: Register)
    requires
        blocks_contiguous(g, ins.len() as int),
        row.len() == g.len(),
    ensures
        forall|k: int, i: int|
            #[trigger] def_site(g, ins, reg, k, i) ==> 1 <= def_version(row, ins, reg, k, i) <= def_total(row, ins, reg),
        forall|b: int|
            0 <= b < g.len() && #[trigger] row[b] ==> 1 <= phi_version(g, row, ins, reg, b) <= def_total(row, ins, reg),
        forall|k1: int, i1: int, k2: int, i2: int|
            #[trigger] def_site(g, ins, reg, k1, i1) && #[trigger] def_site(g, ins, reg, k2, i2) && i1 != i2
                ==> def_version(row, ins, reg, k1, i1) != def_version(row, ins, reg, k2, i2),
        forall|b1: int, b2: int|
            0 <= b1 < g.len() && 0 <= b2 < g.len() && #[trigger] row[b1] && #[trigger] row[b2] && b1 != b2
                ==> phi_version(g, row, ins, reg, b1) != phi_version(g, row, ins, reg, b2),
        forall|b: int, k: int, i: int|
            0 <= b < g.len() && #[trigger] row[b] && #[trigger] def_site(g, ins, reg, k, i)
                ==> phi_version(g, row, ins, reg, b) != def_version(row, ins, reg, k, i),
        forall|v: int| 1 <= v <= def_total(row, ins, reg) ==> #[trigger] version_defined(g, row, ins, reg, v),
{
    let n = ins.len() as int;
    lemma_contiguous_fit(g, n);
    assert forall|k: int, i: int|
        #[trigger] def_site(g, ins, reg, k, i) implies 1 <= def_version(row, ins, reg, k, i) <= def_total(row, ins, reg) by {
        lemma_phi_count_mono(row, k + 1, g.len() as int);
        lemma_defs_before_mono(ins, reg, i + 1, n);
        lemma_defs_before_mono(ins, reg, i, i + 1);
    }
    assert forall|b: int|
        0 <= b < g.len() && #[trigger] row[b] implies 1 <= phi_version(g, row, ins, reg, b) <= def_total(row, ins, reg) by {
        lemma_phi_count_mono(row, b + 1, g.len() as int);
        lemma_phi_count_mono(row, b, b + 1);
        lemma_defs_before_mono(ins, reg, g[b].start as int, n);
    }
    assert forall|k1: int, i1: int, k2: int, i2: int|
        #[trigger] def_site(g, ins, reg, k1, i1) && #[trigger] def_site(g, ins, reg, k2, i2) && i1 != i2
        implies def_version(row, ins, reg, k1, i1) != def_version(row, ins, reg, k2, i2) by {
        if i1 < i2 {
            lemma_def_order(g, row, ins, reg, k1, i1, k2, i2);
        } else {
            lemma_def_order(g, row, ins, reg, k2, i2, k1, i1);
        }
    }
    assert forall|b1: int, b2: int|
        0 <= b1 < g.len() && 0 <= b2 < g.len() && #[trigger] row[b1] && #[trigger] row[b2] && b1 != b2
        implies phi_version(g, row, ins, reg, b1) != phi_version(g, row, ins, reg, b2) by {
        if b1 < b2 {
            lemma_phi_order(g, row, ins, reg, b1, b2);
        } else {
            lemma_phi_order(g, row, ins, reg, b2, b1);
        }
    }
    assert forall|b: int, k: int, i: int|
        0 <= b < g.len() && #[trigger] row[b] && #[trigger] def_site(g, ins, reg, k, i)
        implies phi_version(g, row, ins, reg, b) != def_version(row, ins, reg, k, i) by {
        lemma_phi_def_order(g, row, ins, reg, b, k, i);
    }
    lemma_versions_onto(g, row, ins, reg, g.len() as int);
}

impl SSABuilder {
    /// The last instruction in `lo..i` that writes `reg`
    fn find_last_def(instrs: &[Instruction], lo: usize, i: usize, reg: Register) -> (r: Option<usize>)
        requires
            lo <= i <= instrs@.len(),
        ensures
            match r {
                Some(j) => last_def(instrs@, lo as int, i as int, reg) == Some(j as int) && lo <= j < i
                    && instrs@[j as int].o_reg == Some(reg),
                None => last_def(instrs@, lo as int, i as int, reg) is None,
            },
    {
        let mut k = i;
        while k > lo
            invariant
                lo <= k <= i,
                i <= instrs@.len(),
                last_def(instrs@, lo as int, i as int, reg) == last_def(instrs@, lo as int, k as int, reg),
            decreases k - lo,
        {
            let w = match instrs[k - 1].o_reg {
                Some(x) => x == reg,
                None => false,
            };
            if w {
                return Some(k - 1);
            }
            k = k - 1;
        }
        None
    }

    /// The version of `reg` on entry to block `b`
    fn entry_version(&self, instrs: &[Instruction], reg: Register, b: usize, fuel: usize) -> (v: usize)
        requires
            rename_ready(*self, instrs@),
            single_assignment(*self, instrs@),
            b < self.blocks@.len(),
            reg != Register::Zero,
        ensures
            v == version_in(self.blocks@, self.idom@, self.phi_sites@, instrs@, reg, b as int, fuel as nat),
        decreases fuel, 0nat,
    {
        proof {
            lemma_reg_of_id(reg);
        }
        if self.phi_sites[reg.index()][b] {
            return self.phi_versions[reg.index()][b];
        }
        if fuel == 0 {
            return 0;
        }
        match self.idom[b] {
            Some(d) => self.exit_version(instrs, reg, d, fuel - 1),
            None => 0,
        }
    }

    /// The version of `reg` on exit from block `b`
    fn exit_version(&self, instrs: &[Instruction], reg: Register, b: usize, fuel: usize) -> (v: usize)
        requires
            rename_ready(*self, instrs@),
            single_assignment(*self, instrs@),
            b < self.blocks@.len(),
        ensures
            v == version_out(self.blocks@, self.idom@, self.phi_sites@, instrs@, reg, b as int, fuel as nat),
        decreases fuel, 1nat,
    {
        proof {
            lemma_contiguous_fit(self.blocks@, instrs@.len() as int);
        }
        if reg == Register::Zero {
            return 0;
        }
        let start = self.blocks[b].start;
        let end = self.blocks[b].end;
        match Self::find_last_def(instrs, start, end + 1, reg) {
            Some(j) => {
                assert(self.blocks@[b as int].start <= j <= self.blocks@[b as int].end);
                self.def_versions[j]
            },
            None => self.entry_version(instrs, reg, b, fuel),
        }
    }

    /// The versions that the inputs of instruction `i` of block `k` read
    fn instr_use_versions(&self, instrs: &[Instruction], k: usize, i: usize) -> (vs: Vec<usize>)
        requires
            rename_ready(*self, instrs@),
            single_assignment(*self, instrs@),
            k < self.blocks@.len(),
            self.blocks@[k as int].start <= i <= self.blocks@[k as int].end,
            i < instrs@.len(),
        ensures
            uses_ok(*self, instrs@, vs@, k as int, i as int),
    {
        let start = self.blocks[k].start;
        let nb = self.blocks.len();
        let mut vs: Vec<usize> = Vec::new();
        let mut m: usize = 0;
        while m < instrs[i].i_reg.len()
            invariant
                rename_ready(*self, instrs@),
                single_assignment(*self, instrs@),
                nb == self.blocks@.len(),
                k < nb,
                start == self.blocks@[k as int].start,
                start <= i <= self.blocks@[k as int].end,
                i < instrs@.len(),
                m <= instrs@[i as int].i_reg@.len(),
                vs@.len() == m,
                forall|m2: int| 0 <= m2 < m ==> #[trigger] vs@[m2] == match instrs@[i as int].i_reg@[m2] {
                    Val::Reg(reg) => use_version(*self, instrs@, reg, k as int, i as int),
                    _ => 0,
                },
            decreases instrs@[i as int].i_reg@.len() - m,
        {
            let v = match instrs[i].i_reg[m] {
                Val::Reg(reg) => if reg == Register::Zero {
                    0
                } else {
                    match Self::find_last_def(instrs, start, i, reg) {
                        Some(j) => {
                            assert(self.blocks@[k as int].start <= j <= self.blocks@[k as int].end);
                            self.def_versions[j]
                        },
                        None => self.entry_version(instrs, reg, k, nb),
                    }
                },
                _ => 0,
            };
            vs.push(v);
            m = m + 1;
        }
        assert(uses_ok(*self, instrs@, vs@, k as int, i as int));
        vs
    }

    /// Number the definitions of register number `q`: the versions its phi functions define,
    /// block by block, and those its writes define, set in `defs`
    fn number_defs(&self, instrs: &[Instruction], q: usize, defs: &mut Vec<usize>) -> (pv: Vec<usize>)
        requires
            rename_ready(*self, instrs@),
            q < NUMREGS,
            old(defs)@.len() == instrs@.len(),
        ensures
            final(defs)@.len() == instrs@.len(),
            forall|k: int, i: int|
                #![trigger final(defs)@[i], self.blocks@[k]]
                0 <= k < self.blocks@.len() && self.blocks@[k].start <= i <= self.blocks@[k].end ==> final(defs)@[i]
                    == if instrs@[i].o_reg == Some(reg_of(q as u32)) && q != 0 {
                    def_version(self.phi_sites@[q as int]@, instrs@, reg_of(q as u32), k, i)
                } else {
                    old(defs)@[i] as int
                },
            pv@.len() == self.blocks@.len(),
            forall|b: int| 0 <= b < self.blocks@.len() ==> #[trigger] pv@[b] == if self.phi_sites@[q as int]@[b] {
                phi_version(self.blocks@, self.phi_sites@[q as int]@, instrs@, reg_of(q as u32), b)
            } else {
                0
            },
    {
        let ghost g = self.blocks@;
        let ghost ins = instrs@;
        let ghost d0 = defs@;
        let ghost row = self.phi_sites@[q as int]@;
        let reg = Register::from(q as u32);
        let n = instrs.len();
        let nb = self.blocks.len();
        proof {
            lemma_contiguous_fit(g, n as int);
        }
        let mut pv: Vec<usize> = Vec::new();
        let mut pc: usize = 0;
        let mut dc: usize = 0;
        let mut b: usize = 0;
        while b < nb
            invariant
                rename_ready(*self, instrs@),
                g == self.blocks@,
                ins == instrs@,
                row == self.phi_sites@[q as int]@,
                row.len() == nb,
                reg == reg_of(q as u32),
                reg.id() == q,
                q < NUMREGS,
                n == ins.len(),
                nb == g.len(),
                nb <= n,
                n < usize::MAX / 2,
                forall|k: int| 0 <= k < nb ==> #[trigger] g[k].end < n,
                b <= nb,
                pc == phi_count(row, b as int),
                b == 0 ==> dc == 0,
                b > 0 ==> dc == defs_before(ins, g[b - 1].end + 1, reg),
                pv@.len() == b,
                forall|b2: int| 0 <= b2 < b ==> #[trigger] pv@[b2] == if row[b2] {
                    phi_version(g, row, ins, reg, b2)
                } else {
                    0
                },
                defs@.len() == n,
                forall|k: int, i: int|
                    #![trigger defs@[i], g[k]]
                    0 <= k < nb && g[k].start <= i <= g[k].end ==> defs@[i] == if k < b && ins[i].o_reg == Some(reg) && q != 0 {
                        def_version(row, ins, reg, k, i)
                    } else {
                        d0[i] as int
                    },
            decreases nb - b,
        {
            let start = self.blocks[b].start;
            let end = self.blocks[b].end;
            proof {
                if b > 0 {
                    assert(g[b as int].start == g[b - 1].end + 1);
                }
                assert(dc == defs_before(ins, start as int, reg));
                lemma_phi_count_mono(row, b as int, b as int + 1);
                lemma_defs_before_mono(ins, reg, start as int, end + 1);
                lemma_defs_before_mono(ins, reg, 0, start as int);
                assert forall|k: int| 0 <= k < b implies #[trigger] g[k].end < start by {
                    lemma_contiguous_order(g, n as int, k, b as int);
                }
                assert forall|k: int| b < k < nb implies #[trigger] g[k].start > end by {
                    lemma_contiguous_order(g, n as int, b as int, k);
                }
            }
            if self.phi_sites[q][b] {
                pv.push(pc + dc + 1);
                pc = pc + 1;
            } else {
                pv.push(0);
            }
            let mut i = start;
            while i <= end
                invariant
                    g == self.blocks@,
                    ins == instrs@,
                    row == self.phi_sites@[q as int]@,
                    reg == reg_of(q as u32),
                    n == ins.len(),
                    nb == g.len(),
                    b < nb,
                    start == g[b as int].start,
                    end == g[b as int].end,
                    end < n,
                    n < usize::MAX / 2,
                    start <= i <= end + 1,
                    forall|k: int| 0 <= k < nb ==> #[trigger] g[k].end < n,
                    pc == phi_count(row, b + 1),
                    pc <= b + 1,
                    nb <= n,
                    dc == defs_before(ins, i as int, reg),
                    dc <= i,
                    defs@.len() == n,
                    forall|k: int| 0 <= k < b ==> #[trigger] g[k].end < start,
                    forall|k: int| b < k < nb ==> #[trigger] g[k].start > end,
                    forall|k: int, i2: int|
                        #![trigger defs@[i2], g[k]]
                        0 <= k < nb && g[k].start <= i2 <= g[k].end ==> defs@[i2] == if (k < b || (k == b && i2 < i))
                            && ins[i2].o_reg == Some(reg) && q != 0 {
                            def_version(row, ins, reg, k, i2)
                        } else {
                            d0[i2] as int
                        },
                decreases end + 1 - i,
            {
                let ghost dc0 = dc;
                let ghost defs0 = defs@;
                let w = match instrs[i].o_reg {
                    Some(x) => x == reg,
                    None => false,
                };
                if w {
                    if q != 0 {
                        defs.set(i, pc + dc + 1);
                    }
                    dc = dc + 1;
                }
                proof {
                    lemma_defs_before_mono(ins, reg, i as int, i as int + 1);
                    assert(def_version(row, ins, reg, b as int, i as int) == pc + dc0 + 1);
                    assert(w == (ins[i as int].o_reg == Some(reg)));
                    assert forall|k: int, i2: int|
                        #![trigger defs@[i2], g[k]]
                        0 <= k < nb && g[k].start <= i2 <= g[k].end implies defs@[i2] == if (k < b || (k == b && i2 < i + 1))
                            && ins[i2].o_reg == Some(reg) && q != 0 {
                            def_version(row, ins, reg, k, i2)
                        } else {
                            d0[i2] as int
                        } by {
                        if i2 == i {
                            if k < b {
                                assert(g[k].end < start);
                            } else if k > b {
                                assert(g[k].start > end);
                            }
                        } else {
                            assert(defs@[i2] == defs0[i2]);
                        }
                    }
                }
                i = i + 1;
            }
            b = b + 1;
        }
        pv
    }

    /// Give every definition its own version, numbering those of each register in program
    /// order, and every use the version that reaches it
    pub fn rename(&mut self, instrs: &[Instruction])
        requires
            rename_ready(*old(self), instrs@),
        ensures
            final(self).blocks == old(self).blocks,
            final(self).edges == old(self).edges,
            final(self).leader_set == old(self).leader_set,
            final(self).dom == old(self).dom,
            final(self).idom == old(self).idom,
            final(self).dominance_frontier == old(self).dominance_frontier,
            final(self).phi_sites == old(self).phi_sites,
            single_assignment(*final(self), instrs@),
            uses_reaching_defs(*final(self), instrs@),
    {
        proof {
            lemma_contiguous_fit(self.blocks@, instrs@.len() as int);
        }
        let n = instrs.len();
        let nb = self.blocks.len();
        let mut defs: Vec<usize> = Vec::new();
        let mut i: usize = 0;
        while i < n
            invariant
                n == instrs@.len(),
                i <= n,
                defs@.len() == i,
                forall|j: int| 0 <= j < i ==> #[trigger] defs@[j] == 0,
            decreases n - i,
        {
            defs.push(0);
            i = i + 1;
        }
        let mut pvs: Vec<Vec<usize>> = Vec::new();
        let mut q: usize = 0;
        while q < NUMREGS
            invariant
                rename_ready(*self, instrs@),
                n == instrs@.len(),
                nb == self.blocks@.len(),
                q <= NUMREGS,
                defs@.len() == n,
                pvs@.len() == q,
                forall|q2: int| 0 <= q2 < q ==> (#[trigger] pvs@[q2])@.len() == nb,
                forall|q2: int, b: int|
                    0 <= q2 < q && 0 <= b < nb ==> #[trigger] pvs@[q2]@[b] == if self.phi_sites@[q2]@[b] {
                        phi_version(self.blocks@, self.phi_sites@[q2]@, instrs@, reg_of(q2 as u32), b)
                    } else {
                        0
                    },
                forall|k: int, i2: int|
                    #![trigger defs@[i2], self.blocks@[k]]
                    0 <= k < nb && self.blocks@[k].start <= i2 <= self.blocks@[k].end ==> defs@[i2] == match instrs@[i2].o_reg {
                        Some(x) => if x != Register::Zero && x.id() < q {
                            def_version(self.phi_sites@[x.id()]@, instrs@, x, k, i2)
                        } else {
                            0
                        },
                        None => 0,
                    },
            decreases NUMREGS - q,
        {
            let ghost before = defs@;
            let pv = self.number_defs(instrs, q, &mut defs);
            proof {
                assert forall|k: int, i2: int|
                    #![trigger defs@[i2], self.blocks@[k]]
                    0 <= k < nb && self.blocks@[k].start <= i2 <= self.blocks@[k].end implies defs@[i2] == match instrs@[i2].o_reg {
                        Some(x) => if x != Register::Zero && x.id() < q + 1 {
                            def_version(self.phi_sites@[x.id()]@, instrs@, x, k, i2)
                        } else {
                            0
                        },
                        None => 0,
                    } by {
                    assert(defs@[i2] == if instrs@[i2].o_reg == Some(reg_of(q as u32)) && q != 0 {
                        def_version(self.phi_sites@[q as int]@, instrs@, reg_of(q as u32), k, i2)
                    } else {
                        before[i2] as int
                    });
                    if let Some(x) = instrs@[i2].o_reg {
                        lemma_reg_of_id(x);
                    }
                }
            }
            pvs.push(pv);
            proof {
                assert(pvs@[q as int] == pv);
            }
            q = q + 1;
        }
        self.def_versions = defs;
        self.phi_versions = pvs;
        proof {
            assert forall|k: int, i2: int|
                #![trigger self.def_versions@[i2], self.blocks@[k]]
                0 <= k < self.blocks@.len() && self.blocks@[k].start <= i2 <= self.blocks@[k].end implies self.def_versions@[i2]
                    == match instrs@[i2].o_reg {
                    Some(reg) => if reg == Register::Zero {
                        0
                    } else {
                        def_version(self.phi_sites@[reg.id()]@, instrs@, reg, k, i2)
                    },
                    None => 0,
                } by {
                if let Some(x) = instrs@[i2].o_reg {
                    lemma_reg_of_id(x);
                }
            }
            assert(single_assignment(*self, instrs@));
        }
        let mut uses: Vec<Vec<usize>> = Vec::new();
        let mut k: usize = 0;
        while k < nb
            invariant
                rename_ready(*self, instrs@),
                single_assignment(*self, instrs@),
                n == instrs@.len(),
                nb == self.blocks@.len(),
                k <= nb,
                uses@.len() == if k == 0 { 0 } else { self.blocks@[k - 1].end + 1 },
                forall|k2: int, i2: int|
                    #![trigger uses@[i2], self.blocks@[k2]]
                    0 <= k2 < k && self.blocks@[k2].start <= i2 <= self.blocks@[k2].end ==> uses_ok(*self, instrs@, uses@[i2]@, k2, i2),
            decreases nb - k,
        {
            let start = self.blocks[k].start;
            let end = self.blocks[k].end;
            proof {
                lemma_contiguous_fit(self.blocks@, instrs@.len() as int);
                if k > 0 {
                    assert(self.blocks@[k as int].start == self.blocks@[k - 1].end + 1);
                }
                assert(self.blocks@[k as int].end < n);
                assert forall|k2: int| 0 <= k2 < k implies #[trigger] self.blocks@[k2].end < start by {
                    lemma_contiguous_order(self.blocks@, n as int, k2, k as int);
                }
            }
            let mut i = start;
            while i <= end
                invariant
                    rename_ready(*self, instrs@),
                    single_assignment(*self, instrs@),
                    n == instrs@.len(),
                    nb == self.blocks@.len(),
                    k < nb,
                    start == self.blocks@[k as int].start,
                    end == self.blocks@[k as int].end,
                    end < n,
                    start <= i <= end + 1,
                    uses@.len() == i,
                    forall|k2: int| 0 <= k2 < k ==> #[trigger] self.blocks@[k2].end < start,
                    forall|k2: int, i2: int|
                        #![trigger uses@[i2], self.blocks@[k2]]
                        0 <= k2 < k && self.blocks@[k2].start <= i2 <= self.blocks@[k2].end ==> uses_ok(*self, instrs@, uses@[i2]@, k2, i2),
                    forall|i2: int| start <= i2 < i ==> uses_ok(*self, instrs@, #[trigger] uses@[i2]@, k as int, i2),
                decreases end + 1 - i,
            {
                let vs = self.instr_use_versions(instrs, k, i);
                uses.push(vs);
                i = i + 1;
            }
            proof {
                assert forall|k2: int, i2: int|
                    #![trigger uses@[i2], self.blocks@[k2]]
                    0 <= k2 < k + 1 && self.blocks@[k2].start <= i2 <= self.blocks@[k2].end implies uses_ok(*self, instrs@, uses@[i2]@, k2, i2) by {
                    if k2 == k {
                        assert(start <= i2 < i);
                    }
                }
            }
            k = k + 1;
        }
        proof {
            assert(uses@.len() == n);
        }
        let mut args: Vec<Vec<Vec<usize>>> = Vec::new();
        let mut q: usize = 0;
        while q < NUMREGS
            invariant
                rename_ready(*self, instrs@),
                single_assignment(*self, instrs@),
                nb == self.blocks@.len(),
                q <= NUMREGS,
                args@.len() == q,
                forall|q2: int| 0 <= q2 < q ==> (#[trigger] args@[q2])@.len() == nb,
                forall|q2: int, b: int| 0 <= q2 < q && 0 <= b < nb ==> {
                    let a = (#[trigger] args@[q2]@[b])@;
                    let preds = self.blocks@[b].pred@;
                    &&& self.phi_sites@[q2]@[b] ==> a.len() == preds.len() && forall|t: int| 0 <= t < preds.len() ==> #[trigger] a[t]
                        == version_out(self.blocks@, self.idom@, self.phi_sites@, instrs@, reg_of(q2 as u32), preds[t] as int, nb as nat)
                    &&& !self.phi_sites@[q2]@[b] ==> a.len() == 0
                },
            decreases NUMREGS - q,
        {
            let reg = Register::from(q as u32);
            let mut row: Vec<Vec<usize>> = Vec::new();
            let mut b: usize = 0;
            while b < nb
                invariant
                    rename_ready(*self, instrs@),
                    single_assignment(*self, instrs@),
                    nb == self.blocks@.len(),
                    q < NUMREGS,
                    reg == reg_of(q as u32),
                    b <= nb,
                    row@.len() == b,
                    forall|b2: int| 0 <= b2 < b ==> {
                        let a = (#[trigger] row@[b2])@;
                        let preds = self.blocks@[b2].pred@;
                        &&& self.phi_sites@[q as int]@[b2] ==> a.len() == preds.len() && forall|t: int| 0 <= t < preds.len() ==> #[trigger] a[t]
                            == version_out(self.blocks@, self.idom@, self.phi_sites@, instrs@, reg, preds[t] as int, nb as nat)
                        &&& !self.phi_sites@[q as int]@[b2] ==> a.len() == 0
                    },
                decreases nb - b,
            {
                let mut a: Vec<usize> = Vec::new();
                if self.phi_sites[q][b] {
                    let np = self.blocks[b].pred.len();
                    let mut t: usize = 0;
                    while t < np
                        invariant
                            rename_ready(*self, instrs@),
                            single_assignment(*self, instrs@),
                            nb == self.blocks@.len(),
                            b < nb,
                            np == self.blocks@[b as int].pred@.len(),
                            t <= np,
                            a@.len() == t,
                            forall|t2: int| 0 <= t2 < t ==> #[trigger] a@[t2] == version_out(
                                self.blocks@,
                                self.idom@,
                                self.phi_sites@,
                                instrs@,
                                reg,
                                self.blocks@[b as int].pred@[t2] as int,
                                nb as nat,
                            ),
                        decreases np - t,
                    {
                        let p = self.blocks[b].pred[t];
                        let v = self.exit_version(instrs, reg, p, nb);
                        a.push(v);
                        t = t + 1;
                    }
                }
                row.push(a);
                b = b + 1;
            }
            args.push(row);
            q = q + 1;
        }
        self.use_versions = uses;
        self.phi_args = args;
    }
}

} // verus!
