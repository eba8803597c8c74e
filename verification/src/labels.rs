//! The labels of generated code: every jump of a compiled function goes to a label that the
//! code binds exactly once, so that the assembler can place every target.
use vstd::prelude::*;

use crate::emulator::ExitType;
use crate::irgraph::{Operation, Val};
use crate::jit::{
    address_code, alu_code, alu_reg, body_code, branch_code, byte_checks, compare_cov_code, compilable,
    compiled, code_upto, cov_code, dirty_code, edge_cov_code, entry_pc, exit_code, imm32, instr_code,
    is_shift, is_sized, jmp_off_code, lbl, lib_code, lib_return, load_code, load_reg, mov, mov_code, new_cov_code,
    perm_check, prologue, r64, save_reg, sext32, shifted_compare, slot, slt_code, snapshot_at,
    snapshot_code, state_at, store_code, store_perm_read, store_write, strcmp_code, strcmp_result, strlen_code,
    timeout_code, trace_code, alu_op, load_kind, store_kind, block_cov_code, Gpr, IrView,
    JitOptions, LibFuncs, Op2, Opnd, X86Instr,
};
use crate::config::CovMethod;
use crate::registers::Register;

verus! {

/// The labels the code binds, in order
pub open spec fn bound_labels(code: Seq<X86Instr>) -> Seq<usize>
    decreases code.len(),
{
    if code.len() == 0 {
        seq![]
    } else {
        bound_labels(code.drop_last()) + match code.last() {
            X86Instr::Label(l) => seq![l],
            _ => seq![],
        }
    }
}

/// The labels the code jumps to or calls, in order
pub open spec fn used_labels(code: Seq<X86Instr>) -> Seq<usize>
    decreases code.len(),
{
    if code.len() == 0 {
        seq![]
    } else {
        used_labels(code.drop_last()) + match code.last() {
            X86Instr::Jcc(_, l) => seq![l],
            X86Instr::JmpLabel(l) => seq![l],
            X86Instr::Call(l) => seq![l],
            _ => seq![],
        }
    }
}

/// The labels the code leaves to the code of its guest jumps, in order
pub open spec fn reserved_labels(code: Seq<X86Instr>) -> Seq<usize>
    decreases code.len(),
{
    if code.len() == 0 {
        seq![]
    } else {
        reserved_labels(code.drop_last()) + match code.last() {
            X86Instr::GuestJump(_, l) => seq![l],
            _ => seq![],
        }
    }
}

/// Every label the code jumps to is bound in it, no label is bound twice, and the labels left
/// to guest jumps are distinct and named nowhere else
pub open spec fn labels_resolved(code: Seq<X86Instr>) -> bool {
    let b = bound_labels(code);
    let u = used_labels(code);
    let r = reserved_labels(code);
    &&& b.no_duplicates()
    &&& forall|i: int| 0 <= i < u.len() ==> b.contains(#[trigger] u[i])
    &&& r.no_duplicates()
    &&& forall|i: int| 0 <= i < r.len() ==> !b.contains(#[trigger] r[i]) && !u.contains(r[i])
}

/// Every label the code names lies in `[lo, hi)`
pub open spec fn labels_within(code: Seq<X86Instr>, lo: int, hi: int) -> bool {
    let b = bound_labels(code);
    let u = used_labels(code);
    let r = reserved_labels(code);
    &&& forall|i: int| 0 <= i < b.len() ==> lo <= #[trigger] b[i] < hi
    &&& forall|i: int| 0 <= i < u.len() ==> lo <= #[trigger] u[i] < hi
    &&& forall|i: int| 0 <= i < r.len() ==> lo <= #[trigger] r[i] < hi
}

/// The code names no label
pub open spec fn no_labels(code: Seq<X86Instr>) -> bool {
    &&& bound_labels(code) == Seq::<usize>::empty()
    &&& used_labels(code) == Seq::<usize>::empty()
    &&& reserved_labels(code) == Seq::<usize>::empty()
}

proof fn lemma_labels_concat(a: Seq<X86Instr>, b: Seq<X86Instr>)
    ensures
        bound_labels(a + b) == bound_labels(a) + bound_labels(b),
        used_labels(a + b) == used_labels(a) + used_labels(b),
        reserved_labels(a + b) == reserved_labels(a) + reserved_labels(b),
    decreases b.len(),
{
    if b.len() == 0 {
        assert(a + b =~= a);
    } else {
        lemma_labels_concat(a, b.drop_last());
        assert((a + b).drop_last() =~= a + b.drop_last());
        assert((a + b).last() == b.last());
    }
}

proof fn lemma_no_labels_concat(a: Seq<X86Instr>, b: Seq<X86Instr>)
    requires
        no_labels(a),
        no_labels(b),
    ensures
        no_labels(a + b),
{
    lemma_labels_concat(a, b);
}

proof fn lemma_contains_concat(a: Seq<usize>, b: Seq<usize>, x: usize)
    ensures
        (a + b).contains(x) <==> a.contains(x) || b.contains(x),
{
    if a.contains(x) {
        let i = choose|i: int| 0 <= i < a.len() && a[i] == x;
        assert((a + b)[i] == x);
    }
    if b.contains(x) {
        let i = choose|i: int| 0 <= i < b.len() && b[i] == x;
        assert((a + b)[a.len() + i] == x);
    }
    if (a + b).contains(x) {
        let i = choose|i: int| 0 <= i < (a + b).len() && (a + b)[i] == x;
        if i < a.len() {
            assert(a[i] == x);
        } else {
            assert(b[i - a.len()] == x);
        }
    }
}

/// Joining code whose labels lie in disjoint ranges keeps them resolved
proof fn lemma_resolved_concat(a: Seq<X86Instr>, b: Seq<X86Instr>, lo: int, mid: int, hi: int)
    requires
        lo <= mid <= hi,
        labels_resolved(a),
        labels_resolved(b),
        labels_within(a, lo, mid),
        labels_within(b, mid, hi),
    ensures
        labels_resolved(a + b),
        labels_within(a + b, lo, hi),
{
    lemma_labels_concat(a, b);
    let (ba, ua, ra) = (bound_labels(a), used_labels(a), reserved_labels(a));
    let (bb, ub, rb) = (bound_labels(b), used_labels(b), reserved_labels(b));
    let (b2, u2, r2) = (ba + bb, ua + ub, ra + rb);
    assert forall|i: int, j: int| 0 <= i < b2.len() && 0 <= j < b2.len() && i != j implies b2[i] != b2[j] by {
        if i < ba.len() && j >= ba.len() {
            assert(b2[i] == ba[i] && b2[j] == bb[j - ba.len()]);
        } else if i >= ba.len() && j < ba.len() {
            assert(b2[j] == ba[j] && b2[i] == bb[i - ba.len()]);
        }
    }
    assert forall|i: int| 0 <= i < u2.len() implies b2.contains(#[trigger] u2[i]) by {
        if i < ua.len() {
            assert(u2[i] == ua[i]);
            lemma_contains_concat(ba, bb, ua[i]);
        } else {
            assert(u2[i] == ub[i - ua.len()]);
            lemma_contains_concat(ba, bb, ub[i - ua.len()]);
        }
    }
    assert forall|i: int, j: int| 0 <= i < r2.len() && 0 <= j < r2.len() && i != j implies r2[i] != r2[j] by {
        if i < ra.len() && j >= ra.len() {
            assert(r2[i] == ra[i] && r2[j] == rb[j - ra.len()]);
        } else if i >= ra.len() && j < ra.len() {
            assert(r2[j] == ra[j] && r2[i] == rb[i - ra.len()]);
        }
    }
    assert forall|i: int| 0 <= i < r2.len() implies !b2.contains(#[trigger] r2[i]) && !u2.contains(r2[i]) by {
        let x = r2[i];
        lemma_contains_concat(ba, bb, x);
        lemma_contains_concat(ua, ub, x);
        if i < ra.len() {
            assert(x == ra[i]);
            if bb.contains(x) {
                let j = choose|j: int| 0 <= j < bb.len() && bb[j] == x;
            }
            if ub.contains(x) {
                let j = choose|j: int| 0 <= j < ub.len() && ub[j] == x;
            }
        } else {
            assert(x == rb[i - ra.len()]);
            if ba.contains(x) {
                let j = choose|j: int| 0 <= j < ba.len() && ba[j] == x;
            }
            if ua.contains(x) {
                let j = choose|j: int| 0 <= j < ua.len() && ua[j] == x;
            }
        }
    }
    assert forall|i: int| 0 <= i < b2.len() implies lo <= #[trigger] b2[i] < hi by {
        if i < ba.len() {
            assert(b2[i] == ba[i]);
            assert(lo <= ba[i] < mid);
        } else {
            assert(b2[i] == bb[i - ba.len()]);
            assert(mid <= bb[i - ba.len()] < hi);
        }
    }
    assert forall|i: int| 0 <= i < u2.len() implies lo <= #[trigger] u2[i] < hi by {
        if i < ua.len() {
            assert(u2[i] == ua[i]);
        } else {
            assert(u2[i] == ub[i - ua.len()]);
        }
    }
    assert forall|i: int| 0 <= i < r2.len() implies lo <= #[trigger] r2[i] < hi by {
        if i < ra.len() {
            assert(r2[i] == ra[i]);
            assert(lo <= ra[i] < mid);
        } else {
            assert(r2[i] == rb[i - ra.len()]);
            assert(mid <= rb[i - ra.len()] < hi);
        }
    }
}

proof fn lemma_no_labels_resolved(code: Seq<X86Instr>, lo: int, hi: int)
    requires
        no_labels(code),
    ensures
        labels_resolved(code),
        labels_within(code, lo, hi),
{
}

proof fn lemma_exit_labels(code: u64, reentry: Opnd)
    ensures
        no_labels(exit_code(code, reentry)),
{
    reveal_with_fuel(bound_labels, 4);
    reveal_with_fuel(used_labels, 4);
    reveal_with_fuel(reserved_labels, 4);
}

proof fn lemma_single_labels(i: X86Instr)
    ensures
        bound_labels(seq![i]) == match i {
            X86Instr::Label(l) => seq![l],
            _ => Seq::<usize>::empty(),
        },
        used_labels(seq![i]) == match i {
            X86Instr::Jcc(_, l) => seq![l],
            X86Instr::JmpLabel(l) => seq![l],
            X86Instr::Call(l) => seq![l],
            _ => Seq::<usize>::empty(),
        },
        reserved_labels(seq![i]) == match i {
            X86Instr::GuestJump(_, l) => seq![l],
            _ => Seq::<usize>::empty(),
        },
{
    reveal_with_fuel(bound_labels, 2);
    reveal_with_fuel(used_labels, 2);
    reveal_with_fuel(reserved_labels, 2);
    assert(seq![i].drop_last() =~= Seq::<X86Instr>::empty());
}

proof fn lemma_lib_return_labels()
    ensures
        no_labels(lib_return()),
{
    reveal_with_fuel(bound_labels, 5);
    reveal_with_fuel(used_labels, 5);
    reveal_with_fuel(reserved_labels, 5);
}

proof fn lemma_mov_labels(input: Val, out: Register)
    ensures
        no_labels(mov_code(input, out)),
{
    lemma_single_labels(mov(r64(Gpr::Rbx), slot(out)));
    lemma_single_labels(mov(slot(out), r64(Gpr::Rbx)));
    let m = match input {
        Val::Reg(v) => load_reg(v, 1) + seq![mov(r64(Gpr::Rbx), r64(Gpr::Rcx))],
        Val::Imm(v) => seq![mov(r64(Gpr::Rbx), Opnd::U64(v as u64))],
        Val::Imm64(v) => seq![mov(r64(Gpr::Rbx), Opnd::U64(v as u64))],
    };
    match input {
        Val::Reg(v) => {
            lemma_single_labels(mov(r64(Gpr::Rcx), slot(v)));
            lemma_single_labels(mov(r64(Gpr::Rbx), r64(Gpr::Rcx)));
            lemma_no_labels_concat(load_reg(v, 1), seq![mov(r64(Gpr::Rbx), r64(Gpr::Rcx))]);
        },
        Val::Imm(v) => {
            lemma_single_labels(mov(r64(Gpr::Rbx), Opnd::U64(v as u64)));
        },
        Val::Imm64(v) => {
            lemma_single_labels(mov(r64(Gpr::Rbx), Opnd::U64(v as u64)));
        },
    }
    lemma_no_labels_concat(load_reg(out, 0), m);
    lemma_no_labels_concat(load_reg(out, 0) + m, save_reg(out, Gpr::Rbx));
}

proof fn lemma_alu_labels(op: Operation, in1: Register, in2: Val, out: Register, flags: u16)
    ensures
        no_labels(alu_code(op, in1, in2, out, flags)),
{
    let o = alu_op(op);
    let w = if is_sized(op) && flags == crate::irgraph::Flag::DWord {
        crate::jit::Width::W32
    } else {
        crate::jit::Width::W64
    };
    let ext = if is_sized(op) && flags == crate::irgraph::Flag::DWord { sext32() } else { seq![] };
    lemma_single_labels(mov(r64(Gpr::Rbx), slot(in1)));
    lemma_single_labels(mov(slot(out), r64(Gpr::Rbx)));
    lemma_single_labels(X86Instr::Op2(Op2::Movsxd, r64(Gpr::Rbx), crate::jit::r32(Gpr::Rbx)));
    reveal_with_fuel(bound_labels, 3);
    reveal_with_fuel(used_labels, 3);
    reveal_with_fuel(reserved_labels, 3);
    let m = match in2 {
        Val::Reg(v) => load_reg(v, 1) + alu_reg(o, is_shift(op), w),
        Val::Imm(v) => seq![X86Instr::Op2(o, Opnd::Reg(Gpr::Rbx, w), Opnd::I32(v))],
        Val::Imm64(_) => seq![],
    };
    match in2 {
        Val::Reg(v) => {
            lemma_single_labels(mov(r64(Gpr::Rcx), slot(v)));
            assert(no_labels(alu_reg(o, is_shift(op), w)));
            lemma_no_labels_concat(load_reg(v, 1), alu_reg(o, is_shift(op), w));
        },
        _ => {},
    }
    assert(no_labels(m));
    assert(no_labels(ext));
    lemma_no_labels_concat(load_reg(in1, 0), m);
    lemma_no_labels_concat(load_reg(in1, 0) + m, ext);
    lemma_no_labels_concat(load_reg(in1, 0) + m + ext, save_reg(out, Gpr::Rbx));
}

proof fn lemma_slt_labels(in1: Register, in2: Val, out: Register, flags: u16)
    ensures
        no_labels(slt_code(in1, in2, out, flags)),
{
    reveal_with_fuel(bound_labels, 10);
    reveal_with_fuel(used_labels, 10);
    reveal_with_fuel(reserved_labels, 10);
    match in2 {
        Val::Reg(_) => {},
        Val::Imm(_) => {},
        Val::Imm64(_) => {},
    }
}

/// Labels of the first `n` byte comparisons of a branch: each binds its own
pub open spec fn checks_bound(k: int, n: nat) -> Seq<usize>
    decreases n,
{
    if n == 0 {
        seq![]
    } else {
        checks_bound(k, (n - 1) as nat) + seq![lbl(k, 5 + n - 1)]
    }
}

/// Labels the first `n` byte comparisons of a branch jump to: the fallthrough, and their own
pub open spec fn checks_used(k: int, fall: usize, n: nat) -> Seq<usize>
    decreases n,
{
    if n == 0 {
        seq![]
    } else {
        checks_used(k, fall, (n - 1) as nat) + seq![fall, lbl(k, 5 + n - 1)]
    }
}

proof fn lemma_compare_cov_labels(k: int, i: int, l: usize)
    ensures
        bound_labels(compare_cov_code(k, i, l)) == seq![l],
        used_labels(compare_cov_code(k, i, l)) == seq![l],
        reserved_labels(compare_cov_code(k, i, l)) == Seq::<usize>::empty(),
{
    reveal_with_fuel(bound_labels, 9);
    reveal_with_fuel(used_labels, 9);
    reveal_with_fuel(reserved_labels, 9);
}

proof fn lemma_shifted_compare_labels(sh: u32)
    ensures
        no_labels(shifted_compare(sh)),
{
    reveal_with_fuel(bound_labels, 8);
    reveal_with_fuel(used_labels, 8);
    reveal_with_fuel(reserved_labels, 8);
}

proof fn lemma_checks_labels(k: int, c: crate::jit::Cond, fall: usize, n: nat)
    requires
        k >= 0,
        16 * k + 16 <= usize::MAX,
        n <= 8,
    ensures
        bound_labels(byte_checks(k, c, fall, n)) == checks_bound(k, n),
        used_labels(byte_checks(k, c, fall, n)) == checks_used(k, fall, n),
        reserved_labels(byte_checks(k, c, fall, n)) == Seq::<usize>::empty(),
        checks_bound(k, n).no_duplicates(),
        forall|i: int| 0 <= i < checks_bound(k, n).len() ==> 16 * k + 5 <= #[trigger] checks_bound(k, n)[i] < 16 * k + 5 + n,
        forall|i: int| 0 <= i < checks_used(k, fall, n).len() ==> #[trigger] checks_used(k, fall, n)[i] == fall
            || checks_bound(k, n).contains(checks_used(k, fall, n)[i]),
    decreases n,
{
    if n > 0 {
        let m = (n - 1) as nat;
        lemma_checks_labels(k, c, fall, m);
        let i = n - 1;
        let prev = byte_checks(k, c, fall, m);
        let a = shifted_compare((i * 8) as u32);
        let b = seq![X86Instr::Jcc(c, fall)];
        let d = compare_cov_code(k, i, lbl(k, 5 + i));
        lemma_shifted_compare_labels((i * 8) as u32);
        lemma_single_labels(X86Instr::Jcc(c, fall));
        lemma_compare_cov_labels(k, i, lbl(k, 5 + i));
        lemma_labels_concat(prev, a);
        lemma_labels_concat(prev + a, b);
        lemma_labels_concat(prev + a + b, d);
        assert(byte_checks(k, c, fall, n) == prev + a + b + d);
        assert(bound_labels(byte_checks(k, c, fall, n)) =~= checks_bound(k, n));
        assert(used_labels(byte_checks(k, c, fall, n)) =~= checks_used(k, fall, n));
        assert(reserved_labels(byte_checks(k, c, fall, n)) =~= Seq::<usize>::empty());
        let pb = checks_bound(k, m);
        let nb = checks_bound(k, n);
        let new_l = lbl(k, 5 + i);
        assert(new_l == 16 * k + 5 + i);
        assert(nb =~= pb + seq![new_l]);
        assert forall|x: int, y: int| 0 <= x < nb.len() && 0 <= y < nb.len() && x != y implies nb[x] != nb[y] by {
            if x < pb.len() && y == pb.len() {
                assert(nb[x] == pb[x]);
            } else if y < pb.len() && x == pb.len() {
                assert(nb[y] == pb[y]);
            } else if x < pb.len() && y < pb.len() {
                assert(nb[x] == pb[x] && nb[y] == pb[y]);
            }
        }
        assert forall|x: int| 0 <= x < nb.len() implies 16 * k + 5 <= #[trigger] nb[x] < 16 * k + 5 + n by {
            if x < pb.len() {
                assert(nb[x] == pb[x]);
            }
        }
        let pu = checks_used(k, fall, m);
        let nu = checks_used(k, fall, n);
        assert(nu =~= pu + seq![fall, new_l]);
        assert forall|x: int| 0 <= x < nu.len() implies #[trigger] nu[x] == fall || nb.contains(nu[x]) by {
            lemma_contains_concat(pb, seq![new_l], nu[x]);
            if x < pu.len() {
                assert(nu[x] == pu[x]);
            } else if x == pu.len() + 1 {
                assert(nu[x] == new_l);
                assert(seq![new_l][0] == new_l);
            }
        }
    } else {
        reveal_with_fuel(bound_labels, 1);
        reveal_with_fuel(used_labels, 1);
        reveal_with_fuel(reserved_labels, 1);
    }
}

proof fn lemma_branch_labels(in1: Register, in2: Register, t: usize, flags: u16, k: int, opts: JitOptions)
    requires
        k >= 0,
        16 * k + 16 <= usize::MAX,
    ensures
        labels_resolved(branch_code(in1, in2, t, flags, k, opts)),
        labels_within(branch_code(in1, in2, t, flags, k, opts), 16 * k + 4, 16 * k + 16),
{
    let c = crate::jit::branch_cond(flags).unwrap();
    let fall = lbl(k, 4);
    let a = seq![mov(r64(Gpr::Rax), slot(in1)), mov(r64(Gpr::Rbx), slot(in2))];
    let t_code = seq![
        mov(r64(Gpr::Rbx), crate::jit::at(crate::jit::MemSize::Any, Gpr::R15, t * 2)),
        X86Instr::Op1(crate::jit::Op1::Jmp, r64(Gpr::Rbx)),
        X86Instr::Label(fall),
        X86Instr::Nop,
    ];
    let code = branch_code(in1, in2, t, flags, k, opts);
    assert(bound_labels(a) =~= Seq::<usize>::empty() && used_labels(a) =~= Seq::<usize>::empty()
        && reserved_labels(a) =~= Seq::<usize>::empty()) by {
        reveal_with_fuel(bound_labels, 3);
        reveal_with_fuel(used_labels, 3);
        reveal_with_fuel(reserved_labels, 3);
    }
    assert(bound_labels(t_code) =~= seq![fall] && used_labels(t_code) =~= Seq::<usize>::empty()
        && reserved_labels(t_code) =~= Seq::<usize>::empty()) by {
        reveal_with_fuel(bound_labels, 5);
        reveal_with_fuel(used_labels, 5);
        reveal_with_fuel(reserved_labels, 5);
    }
    if opts.compare_cov && flags == 0b000101 {
        let m = byte_checks(k, c, fall, 8);
        lemma_checks_labels(k, c, fall, 8);
        assert(code == a + m + t_code);
        lemma_labels_concat(a, m);
        lemma_labels_concat(a + m, t_code);
        let cb = crate::labels::checks_bound(k, 8);
        let cu = checks_used(k, fall, 8);
        let b = bound_labels(code);
        assert(b =~= cb + seq![fall]);
        assert(used_labels(code) =~= cu);
        assert(reserved_labels(code) =~= Seq::<usize>::empty());
        assert(fall == 16 * k + 4);
        assert forall|x: int, y: int| 0 <= x < b.len() && 0 <= y < b.len() && x != y implies b[x] != b[y] by {
            if x < cb.len() && y < cb.len() {
                assert(b[x] == cb[x] && b[y] == cb[y]);
            } else if x < cb.len() {
                assert(b[x] == cb[x]);
            } else if y < cb.len() {
                assert(b[y] == cb[y]);
            }
        }
        assert forall|x: int| 0 <= x < cu.len() implies b.contains(#[trigger] cu[x]) by {
            lemma_contains_concat(cb, seq![fall], cu[x]);
            assert(seq![fall][0] == fall);
        }
        assert forall|x: int| 0 <= x < b.len() implies 16 * k + 4 <= #[trigger] b[x] < 16 * k + 16 by {
            if x < cb.len() {
                assert(b[x] == cb[x]);
            }
        }
        assert forall|x: int| 0 <= x < cu.len() implies 16 * k + 4 <= #[trigger] cu[x] < 16 * k + 16 by {
            if cu[x] != fall {
                let y = choose|y: int| 0 <= y < cb.len() && cb[y] == cu[x];
            }
        }
    } else {
        let m = seq![X86Instr::Op2(Op2::Cmp, r64(Gpr::Rax), r64(Gpr::Rbx)), X86Instr::Jcc(c, fall)];
        assert(bound_labels(m) =~= Seq::<usize>::empty() && used_labels(m) =~= seq![fall]
            && reserved_labels(m) =~= Seq::<usize>::empty()) by {
            reveal_with_fuel(bound_labels, 3);
            reveal_with_fuel(used_labels, 3);
            reveal_with_fuel(reserved_labels, 3);
        }
        assert(code == a + m + t_code);
        lemma_labels_concat(a, m);
        lemma_labels_concat(a + m, t_code);
        assert(bound_labels(code) =~= seq![fall]);
        assert(used_labels(code) =~= seq![fall]);
        assert(reserved_labels(code) =~= Seq::<usize>::empty());
        assert(seq![fall][0] == fall);
    }
}

proof fn lemma_perm_check_labels(no_checks: bool, perm: u8, size: int, fall: usize, code: u64, pc: usize)
    ensures
        bound_labels(perm_check(no_checks, perm, size, fall, code, pc)) == Seq::<usize>::empty(),
        used_labels(perm_check(no_checks, perm, size, fall, code, pc)) == seq![fall],
        reserved_labels(perm_check(no_checks, perm, size, fall, code, pc)) == Seq::<usize>::empty(),
{
    reveal_with_fuel(bound_labels, 8);
    reveal_with_fuel(used_labels, 8);
    reveal_with_fuel(reserved_labels, 8);
}

proof fn lemma_address_labels(in1: Register, off: i32, mem_size: usize, fault: usize)
    ensures
        bound_labels(address_code(in1, off, mem_size, fault)) == Seq::<usize>::empty(),
        used_labels(address_code(in1, off, mem_size, fault)) == seq![fault],
        reserved_labels(address_code(in1, off, mem_size, fault)) == Seq::<usize>::empty(),
{
    reveal_with_fuel(bound_labels, 5);
    reveal_with_fuel(used_labels, 5);
    reveal_with_fuel(reserved_labels, 5);
}

proof fn lemma_dirty_labels(fall: usize, skip: usize)
    ensures
        bound_labels(dirty_code(fall, skip)) == seq![fall, skip],
        used_labels(dirty_code(fall, skip)) == seq![skip],
        reserved_labels(dirty_code(fall, skip)) == Seq::<usize>::empty(),
{
    reveal_with_fuel(bound_labels, 9);
    reveal_with_fuel(used_labels, 9);
    reveal_with_fuel(reserved_labels, 9);
}

proof fn lemma_jmp_off_labels(in1: Register, off: i32, k: int)
    requires
        k >= 0,
        16 * k + 16 <= usize::MAX,
    ensures
        labels_resolved(jmp_off_code(in1, off, k)),
        labels_within(jmp_off_code(in1, off, k), 16 * k + 4, 16 * k + 16),
{
    let rbx = r64(Gpr::Rbx);
    let rcx = r64(Gpr::Rcx);
    let exit = lbl(k, 4);
    let fall = lbl(k, 5);
    let p1 = load_reg(in1, 0);
    let p2 = seq![
        X86Instr::Op2(Op2::Add, rbx, Opnd::I32(off)),
        mov(rcx, Opnd::U64(crate::config::MAX_GUEST_ADDR as u64)),
        X86Instr::Op2(Op2::Cmp, rbx, rcx),
        X86Instr::Jcc(crate::jit::Cond::B, fall),
    ];
    let p3 = exit_code(10, rbx);
    let p4 = seq![
        X86Instr::Label(fall),
        X86Instr::Op2(Op2::Shl, rbx, Opnd::U32(1)),
        mov(rcx, crate::jit::at_index(crate::jit::MemSize::Any, Gpr::R15, Gpr::Rbx, 1)),
        X86Instr::Op2(Op2::Test, rcx, rcx),
        X86Instr::Jcc(crate::jit::Cond::Z, exit),
        X86Instr::Op1(crate::jit::Op1::Jmp, rcx),
        X86Instr::Label(exit),
        X86Instr::Op2(Op2::Shr, rbx, Opnd::U32(1)),
    ];
    let p5 = exit_code(1, rbx);
    assert(jmp_off_code(in1, off, k) == p1 + p2 + p3 + p4 + p5);
    lemma_single_labels(mov(r64(Gpr::Rbx), slot(in1)));
    lemma_exit_labels(10, rbx);
    lemma_exit_labels(1, rbx);
    assert(bound_labels(p2) =~= Seq::<usize>::empty() && used_labels(p2) =~= seq![fall]
        && reserved_labels(p2) =~= Seq::<usize>::empty()) by {
        reveal_with_fuel(bound_labels, 5);
        reveal_with_fuel(used_labels, 5);
        reveal_with_fuel(reserved_labels, 5);
    }
    assert(bound_labels(p4) =~= seq![fall, exit] && used_labels(p4) =~= seq![exit]
        && reserved_labels(p4) =~= Seq::<usize>::empty()) by {
        reveal_with_fuel(bound_labels, 9);
        reveal_with_fuel(used_labels, 9);
        reveal_with_fuel(reserved_labels, 9);
    }
    lemma_labels_concat(p1, p2);
    lemma_labels_concat(p1 + p2, p3);
    lemma_labels_concat(p1 + p2 + p3, p4);
    lemma_labels_concat(p1 + p2 + p3 + p4, p5);
    let code = jmp_off_code(in1, off, k);
    assert(bound_labels(code) =~= seq![fall, exit]);
    assert(used_labels(code) =~= seq![fall, exit]);
    assert(reserved_labels(code) =~= Seq::<usize>::empty());
    assert(seq![fall, exit][0] == fall && seq![fall, exit][1] == exit);
}

proof fn lemma_load_labels(in1: Register, off: i32, out: Register, flags: u16, k: int, pc: usize, mem_size: usize, opts: JitOptions)
    requires
        k >= 0,
        16 * k + 16 <= usize::MAX,
    ensures
        labels_resolved(load_code(in1, off, out, flags, k, pc, mem_size, opts)),
        labels_within(load_code(in1, off, out, flags, k, pc, mem_size, opts), 16 * k + 4, 16 * k + 16),
{
    let (hint, size, op, w) = load_kind(flags).unwrap();
    let fall = lbl(k, 4);
    let fault = lbl(k, 5);
    let p1 = address_code(in1, off, mem_size, fault);
    let p2 = seq![mov(r64(Gpr::Rax), crate::jit::at_index(hint, Gpr::Rbx, Gpr::R12, 1))];
    let p3 = perm_check(opts.no_perm_checks, crate::mmu::Perms::READ, size, fall, 8, pc);
    let p4 = seq![X86Instr::Label(fault)];
    let p5 = exit_code(10, Opnd::U64(pc as u64));
    let p6 = seq![X86Instr::Label(fall)];
    let p7 = load_reg(out, 1);
    let p8 = seq![X86Instr::Op2(op, Opnd::Reg(Gpr::Rcx, w), crate::jit::at_index(hint, Gpr::Rbx, Gpr::R13, 1))];
    let p9 = save_reg(out, Gpr::Rcx);
    assert(load_code(in1, off, out, flags, k, pc, mem_size, opts) == p1 + p2 + p3 + p4 + p5 + p6 + p7 + p8 + p9);
    lemma_address_labels(in1, off, mem_size, fault);
    lemma_single_labels(p2[0]);
    lemma_perm_check_labels(opts.no_perm_checks, crate::mmu::Perms::READ, size, fall, 8, pc);
    lemma_single_labels(X86Instr::Label(fault));
    lemma_exit_labels(10, Opnd::U64(pc as u64));
    lemma_single_labels(X86Instr::Label(fall));
    lemma_single_labels(mov(r64(Gpr::Rcx), slot(out)));
    lemma_single_labels(p8[0]);
    lemma_single_labels(mov(slot(out), r64(Gpr::Rcx)));
    assert(p2 =~= seq![p2[0]] && p8 =~= seq![p8[0]]);
    lemma_labels_concat(p1, p2);
    lemma_labels_concat(p1 + p2, p3);
    lemma_labels_concat(p1 + p2 + p3, p4);
    lemma_labels_concat(p1 + p2 + p3 + p4, p5);
    lemma_labels_concat(p1 + p2 + p3 + p4 + p5, p6);
    lemma_labels_concat(p1 + p2 + p3 + p4 + p5 + p6, p7);
    lemma_labels_concat(p1 + p2 + p3 + p4 + p5 + p6 + p7, p8);
    lemma_labels_concat(p1 + p2 + p3 + p4 + p5 + p6 + p7 + p8, p9);
    let code = load_code(in1, off, out, flags, k, pc, mem_size, opts);
    assert(bound_labels(code) =~= seq![fault, fall]);
    assert(used_labels(code) =~= seq![fault, fall]);
    assert(reserved_labels(code) =~= Seq::<usize>::empty());
    assert(seq![fault, fall][0] == fault && seq![fault, fall][1] == fall);
}

proof fn lemma_store_labels(in1: Register, in2: Register, off: i32, flags: u16, k: int, pc: usize, mem_size: usize, opts: JitOptions)
    requires
        k >= 0,
        16 * k + 16 <= usize::MAX,
    ensures
        labels_resolved(store_code(in1, in2, off, flags, k, pc, mem_size, opts)),
        labels_within(store_code(in1, in2, off, flags, k, pc, mem_size, opts), 16 * k + 4, 16 * k + 16),
{
    let (hint, size) = store_kind(flags).unwrap();
    let fall = lbl(k, 4);
    let skip = lbl(k, 5);
    let fault = lbl(k, 6);
    let p1 = address_code(in1, off, mem_size, fault);
    let p2 = seq![store_perm_read(hint, size)];
    let p3 = perm_check(opts.no_perm_checks, crate::mmu::Perms::WRITE, size, fall, 9, pc);
    let p4 = seq![X86Instr::Label(fault)];
    let p5 = exit_code(10, Opnd::U64(pc as u64));
    let p6 = dirty_code(fall, skip);
    let p7 = store_write(in2, hint, size);
    assert(store_code(in1, in2, off, flags, k, pc, mem_size, opts) == p1 + p2 + p3 + p4 + p5 + p6 + p7);
    lemma_address_labels(in1, off, mem_size, fault);
    lemma_single_labels(store_perm_read(hint, size));
    lemma_perm_check_labels(opts.no_perm_checks, crate::mmu::Perms::WRITE, size, fall, 9, pc);
    lemma_single_labels(X86Instr::Label(fault));
    lemma_exit_labels(10, Opnd::U64(pc as u64));
    lemma_dirty_labels(fall, skip);
    assert(no_labels(p7)) by {
        reveal_with_fuel(bound_labels, 3);
        reveal_with_fuel(used_labels, 3);
        reveal_with_fuel(reserved_labels, 3);
    }
    lemma_labels_concat(p1, p2);
    lemma_labels_concat(p1 + p2, p3);
    lemma_labels_concat(p1 + p2 + p3, p4);
    lemma_labels_concat(p1 + p2 + p3 + p4, p5);
    lemma_labels_concat(p1 + p2 + p3 + p4 + p5, p6);
    lemma_labels_concat(p1 + p2 + p3 + p4 + p5 + p6, p7);
    let code = store_code(in1, in2, off, flags, k, pc, mem_size, opts);
    let b = seq![fault, fall, skip];
    assert(bound_labels(code) =~= b);
    assert(used_labels(code) =~= seq![fault, fall, skip]);
    assert(reserved_labels(code) =~= Seq::<usize>::empty());
    assert(b[0] == fault && b[1] == fall && b[2] == skip);
}

/// Code that binds one label and jumps only to it
pub open spec fn one_label(code: Seq<X86Instr>, l: usize) -> bool {
    &&& bound_labels(code) == seq![l]
    &&& used_labels(code) == seq![l]
    &&& reserved_labels(code) == Seq::<usize>::empty()
}

proof fn lemma_one_label(code: Seq<X86Instr>, l: usize)
    requires
        one_label(code, l),
    ensures
        labels_resolved(code),
        labels_within(code, l as int, l + 1),
{
    assert(seq![l][0] == l);
}

proof fn lemma_trace_labels(pc: usize, l: usize)
    ensures
        one_label(trace_code(pc, l), l),
{
    reveal(trace_code);
    reveal_with_fuel(bound_labels, 17);
    reveal_with_fuel(used_labels, 17);
    reveal_with_fuel(reserved_labels, 17);
}

proof fn lemma_new_cov_labels(l: usize)
    ensures
        one_label(new_cov_code(l), l),
{
    reveal_with_fuel(bound_labels, 11);
    reveal_with_fuel(used_labels, 11);
    reveal_with_fuel(reserved_labels, 11);
}

proof fn lemma_cov_labels(pc: usize, l: usize, m: CovMethod)
    ensures
        m is Disabled ==> no_labels(cov_code(pc, l, m)),
        !(m is Disabled) ==> one_label(cov_code(pc, l, m), l),
{
    reveal(cov_code);
    lemma_new_cov_labels(l);
    match m {
        CovMethod::Block => {
            let a = seq![mov(r64(Gpr::Rbx), Opnd::U64((pc as u64) & 0xffffff))];
            lemma_single_labels(a[0]);
            assert(a =~= seq![a[0]]);
            lemma_labels_concat(a, new_cov_code(l));
            assert(block_cov_code(pc, l) == a + new_cov_code(l));
        },
        CovMethod::Edge => {
            let code = edge_cov_code(pc, l);
            let n = new_cov_code(l);
            let i = code.len() - n.len() - 4;
            assert(i == 14);
            let a = code.subrange(0, 14);
            let c = code.subrange(24, 28);
            assert(code =~= a + n + c);
            assert(no_labels(a)) by {
                reveal_with_fuel(bound_labels, 15);
                reveal_with_fuel(used_labels, 15);
                reveal_with_fuel(reserved_labels, 15);
            }
            assert(no_labels(c)) by {
                reveal_with_fuel(bound_labels, 5);
                reveal_with_fuel(used_labels, 5);
                reveal_with_fuel(reserved_labels, 5);
            }
            lemma_labels_concat(a, n);
            lemma_labels_concat(a + n, c);
            assert(bound_labels(code) =~= seq![l]);
            assert(used_labels(code) =~= seq![l]);
        },
        CovMethod::Disabled => {
            reveal_with_fuel(bound_labels, 1);
            reveal_with_fuel(used_labels, 1);
            reveal_with_fuel(reserved_labels, 1);
        },
    }
}

proof fn lemma_timeout_labels(l: usize)
    ensures
        one_label(timeout_code(l), l),
{
    reveal(timeout_code);
    reveal_with_fuel(bound_labels, 9);
    reveal_with_fuel(used_labels, 9);
    reveal_with_fuel(reserved_labels, 9);
}

proof fn lemma_snapshot_labels(pc: usize, l: usize)
    ensures
        one_label(snapshot_code(pc, l), l),
{
    reveal(snapshot_code);
    reveal_with_fuel(bound_labels, 9);
    reveal_with_fuel(used_labels, 9);
    reveal_with_fuel(reserved_labels, 9);
}

/// A piece that may be left out: empty, or naming only label `l`
proof fn lemma_optional_piece(code: Seq<X86Instr>, present: bool, l: usize)
    requires
        present ==> one_label(code, l),
    ensures
        labels_resolved(if present { code } else { seq![] }),
        labels_within(if present { code } else { seq![] }, l as int, l + 1),
{
    if present {
        lemma_one_label(code, l);
    } else {
        reveal_with_fuel(bound_labels, 1);
        reveal_with_fuel(used_labels, 1);
        reveal_with_fuel(reserved_labels, 1);
    }
}

proof fn lemma_prologue_labels(pc: usize, k: int, leaders: Set<usize>, exits: Map<usize, ExitType>, opts: JitOptions)
    requires
        k >= 0,
        16 * k + 16 <= usize::MAX,
    ensures
        labels_resolved(prologue(pc, k, leaders, exits, opts)),
        labels_within(prologue(pc, k, leaders, exits, opts), 16 * k, 16 * k + 4),
{
    let base = 16 * k;
    let p1 = seq![X86Instr::Mark(pc)];
    let tr = if opts.full_trace { trace_code(pc, lbl(k, 0)) } else { seq![] };
    let lc = if leaders.contains(pc) {
        cov_code(pc, lbl(k, 1), opts.cov_method) + timeout_code(lbl(k, 2))
    } else {
        seq![]
    };
    let sc = if snapshot_at(exits, pc) { snapshot_code(pc, lbl(k, 3)) } else { seq![] };
    let p5 = seq![X86Instr::Op2(Op2::Add, r64(Gpr::Rsi), Opnd::I32(1))];
    assert(prologue(pc, k, leaders, exits, opts) == p1 + tr + lc + sc + p5);
    lemma_single_labels(X86Instr::Mark(pc));
    lemma_single_labels(p5[0]);
    assert(p5 =~= seq![p5[0]]);
    lemma_no_labels_resolved(p1, base, base);
    lemma_no_labels_resolved(p5, base + 4, base + 4);
    lemma_trace_labels(pc, lbl(k, 0));
    lemma_optional_piece(trace_code(pc, lbl(k, 0)), opts.full_trace, lbl(k, 0));
    lemma_cov_labels(pc, lbl(k, 1), opts.cov_method);
    lemma_timeout_labels(lbl(k, 2));
    if leaders.contains(pc) {
        let cv = cov_code(pc, lbl(k, 1), opts.cov_method);
        if opts.cov_method is Disabled {
            lemma_no_labels_resolved(cv, base + 1, base + 1);
        } else {
            lemma_one_label(cv, lbl(k, 1));
        }
        lemma_one_label(timeout_code(lbl(k, 2)), lbl(k, 2));
        lemma_resolved_concat(cv, timeout_code(lbl(k, 2)), base + 1, base + 2, base + 3);
    } else {
        lemma_no_labels_resolved(lc, base + 1, base + 3);
        reveal_with_fuel(bound_labels, 1);
        reveal_with_fuel(used_labels, 1);
        reveal_with_fuel(reserved_labels, 1);
    }
    lemma_snapshot_labels(pc, lbl(k, 3));
    lemma_optional_piece(snapshot_code(pc, lbl(k, 3)), snapshot_at(exits, pc), lbl(k, 3));
    lemma_resolved_concat(p1, tr, base, base, base + 1);
    lemma_resolved_concat(p1 + tr, lc, base, base + 1, base + 3);
    lemma_resolved_concat(p1 + tr + lc, sc, base, base + 3, base + 4);
    lemma_resolved_concat(p1 + tr + lc + sc, p5, base, base + 4, base + 4);
}

proof fn lemma_body_labels(ins: IrView, k: int, pc: usize, mem_size: usize, opts: JitOptions)
    requires
        k >= 0,
        16 * k + 16 <= usize::MAX,
    ensures
        labels_resolved(body_code(ins, k, pc, mem_size, opts)),
        labels_within(body_code(ins, k, pc, mem_size, opts), 16 * k + 4, 16 * k + 16),
{
    let (op, iv, out, flags, p) = ins;
    let lo = 16 * k + 4;
    let hi = 16 * k + 16;
    let code = body_code(ins, k, pc, mem_size, opts);
    match op {
        Operation::Mov => {
            lemma_mov_labels(iv[0], out.unwrap());
            lemma_no_labels_resolved(code, lo, hi);
        },
        Operation::Branch(t, _) => {
            lemma_branch_labels(crate::jit::reg_in(iv[0]), crate::jit::reg_in(iv[1]), t, flags, k, opts);
        },
        Operation::Jmp(addr) => {
            lemma_single_labels(X86Instr::GuestJump(addr, lbl(k, 4)));
            assert(seq![lbl(k, 4)][0] == lbl(k, 4));
        },
        Operation::JmpOff(off) => {
            lemma_jmp_off_labels(crate::jit::reg_in(iv[0]), off, k);
        },
        Operation::Store => {
            lemma_store_labels(crate::jit::reg_in(iv[0]), crate::jit::reg_in(iv[1]), imm32(iv[2]), flags, k, pc,
                mem_size, opts);
        },
        Operation::Load => {
            lemma_load_labels(crate::jit::reg_in(iv[0]), imm32(iv[1]), out.unwrap(), flags, k, pc, mem_size, opts);
        },
        Operation::Add | Operation::Sub | Operation::Shl | Operation::Shr | Operation::Sar | Operation::And
        | Operation::Or | Operation::Xor => {
            lemma_alu_labels(op, crate::jit::reg_in(iv[0]), iv[1], out.unwrap(), flags);
            lemma_no_labels_resolved(code, lo, hi);
        },
        Operation::Slt => {
            lemma_slt_labels(crate::jit::reg_in(iv[0]), iv[1], out.unwrap(), flags);
            lemma_no_labels_resolved(code, lo, hi);
        },
        Operation::Syscall => {
            lemma_exit_labels(2, Opnd::U64((p.unwrap() + 4) as u64));
            lemma_no_labels_resolved(code, lo, hi);
        },
        _ => {
            reveal_with_fuel(bound_labels, 1);
            reveal_with_fuel(used_labels, 1);
            reveal_with_fuel(reserved_labels, 1);
        },
    }
}

proof fn lemma_instr_labels(
    ins: IrView,
    k: int,
    cur_pc: usize,
    exits: Map<usize, ExitType>,
    leaders: Set<usize>,
    mem_size: usize,
    opts: JitOptions,
)
    requires
        k >= 0,
        16 * k + 16 <= usize::MAX,
    ensures
        labels_resolved(instr_code(ins, k, cur_pc, exits, leaders, mem_size, opts)),
        labels_within(instr_code(ins, k, cur_pc, exits, leaders, mem_size, opts), 16 * k, 16 * k + 16),
{
    let pro = match ins.4 {
        Some(p) => prologue(p, k, leaders, exits, opts),
        None => seq![],
    };
    match ins.4 {
        Some(p) => lemma_prologue_labels(p, k, leaders, exits, opts),
        None => {
            reveal_with_fuel(bound_labels, 1);
            reveal_with_fuel(used_labels, 1);
            reveal_with_fuel(reserved_labels, 1);
        },
    }
    let body = body_code(ins, k, crate::jit::instr_pc(cur_pc, ins), mem_size, opts);
    lemma_body_labels(ins, k, crate::jit::instr_pc(cur_pc, ins), mem_size, opts);
    lemma_resolved_concat(pro, body, 16 * k, 16 * k + 4, 16 * k + 16);
}

proof fn lemma_code_upto_labels(
    instrs: Seq<IrView>,
    n: nat,
    init_pc: usize,
    exits0: Map<usize, ExitType>,
    leaders: Set<usize>,
    mem_size: usize,
    opts: JitOptions,
)
    requires
        16 * n <= usize::MAX,
    ensures
        labels_resolved(code_upto(instrs, n, init_pc, exits0, leaders, mem_size, opts)),
        labels_within(code_upto(instrs, n, init_pc, exits0, leaders, mem_size, opts), 0, (16 * n) as int),
    decreases n,
{
    if n == 0 {
        reveal_with_fuel(bound_labels, 1);
        reveal_with_fuel(used_labels, 1);
        reveal_with_fuel(reserved_labels, 1);
    } else {
        let m = (n - 1) as nat;
        lemma_code_upto_labels(instrs, m, init_pc, exits0, leaders, mem_size, opts);
        let (p, e) = state_at(instrs, m, init_pc, exits0);
        lemma_instr_labels(instrs[n - 1], n - 1, p, e, leaders, mem_size, opts);
        lemma_resolved_concat(
            code_upto(instrs, m, init_pc, exits0, leaders, mem_size, opts),
            instr_code(instrs[n - 1], n - 1, p, e, leaders, mem_size, opts),
            0,
            (16 * m) as int,
            (16 * n) as int,
        );
    }
}

proof fn lemma_strlen_labels()
    ensures
        labels_resolved(strlen_code()),
{
    lemma_lib_return_labels();
    let a = strlen_code().subrange(0, 10);
    assert(strlen_code() =~= a + lib_return());
    assert(bound_labels(a) =~= seq![0usize] && used_labels(a) =~= seq![0usize]
        && reserved_labels(a) =~= Seq::<usize>::empty()) by {
        reveal_with_fuel(bound_labels, 11);
        reveal_with_fuel(used_labels, 11);
        reveal_with_fuel(reserved_labels, 11);
    }
    lemma_labels_concat(a, lib_return());
    assert(bound_labels(strlen_code()) =~= seq![0usize]);
    assert(used_labels(strlen_code()) =~= seq![0usize]);
    assert(seq![0usize][0] == 0);
}

proof fn lemma_result_labels(first: Seq<X86Instr>)
    requires
        first.len() <= 1,
        no_labels(first),
    ensures
        no_labels(strcmp_result(first)),
{
    let rcx = r64(Gpr::Rcx);
    lemma_lib_return_labels();
    let a = seq![X86Instr::Op2(Op2::Xor, rcx, rcx)];
    let c = seq![mov(slot(Register::A0), rcx)];
    lemma_single_labels(a[0]);
    lemma_single_labels(c[0]);
    assert(a =~= seq![a[0]] && c =~= seq![c[0]]);
    lemma_no_labels_concat(a, first);
    lemma_no_labels_concat(a + first, c);
    lemma_no_labels_concat(a + first + c, lib_return());
}

#[verifier::rlimit(30)]
proof fn lemma_strcmp_labels()
    ensures
        labels_resolved(strcmp_code()),
{
    let rcx = r64(Gpr::Rcx);
    let i1 = X86Instr::Op1(crate::jit::Op1::Inc, rcx);
    let i2 = X86Instr::Op1(crate::jit::Op1::Dec, rcx);
    lemma_single_labels(i1);
    lemma_single_labels(i2);
    reveal_with_fuel(bound_labels, 1);
    reveal_with_fuel(used_labels, 1);
    reveal_with_fuel(reserved_labels, 1);
    lemma_result_labels(seq![i1]);
    lemma_result_labels(seq![i2]);
    lemma_result_labels(seq![]);
    let r1 = strcmp_result(seq![i1]);
    let r2 = strcmp_result(seq![i2]);
    let r3 = strcmp_result(seq![]);
    let code = strcmp_code();
    let a = code.subrange(0, 15);
    let b = seq![X86Instr::Label(2)];
    assert(r1.len() == 7 && r2.len() == 7);
    let c = code.subrange(30, 33);
    assert(code =~= a + r1 + b + r2 + c + r3);
    assert(bound_labels(a) =~= seq![0usize, 1] && used_labels(a) =~= seq![3usize, 0, 2]
        && reserved_labels(a) =~= Seq::<usize>::empty()) by {
        reveal_with_fuel(bound_labels, 16);
        reveal_with_fuel(used_labels, 16);
        reveal_with_fuel(reserved_labels, 16);
    }
    assert(bound_labels(c) =~= seq![3usize] && used_labels(c) =~= seq![2usize]
        && reserved_labels(c) =~= Seq::<usize>::empty()) by {
        reveal_with_fuel(bound_labels, 4);
        reveal_with_fuel(used_labels, 4);
        reveal_with_fuel(reserved_labels, 4);
    }
    lemma_single_labels(X86Instr::Label(2));
    lemma_labels_concat(a, r1);
    lemma_labels_concat(a + r1, b);
    lemma_labels_concat(a + r1 + b, r2);
    lemma_labels_concat(a + r1 + b + r2, c);
    lemma_labels_concat(a + r1 + b + r2 + c, r3);
    let bl = seq![0usize, 1, 2, 3];
    assert(bound_labels(code) =~= bl);
    assert(used_labels(code) =~= seq![3usize, 0, 2, 2]);
    assert(reserved_labels(code) =~= Seq::<usize>::empty());
    assert(bl[0] == 0 && bl[1] == 1 && bl[2] == 2 && bl[3] == 3);
}

proof fn lemma_lib_labels(func: LibFuncs)
    ensures
        labels_resolved(lib_code(func)),
{
    match func {
        LibFuncs::STRLEN => lemma_strlen_labels(),
        LibFuncs::STRCMP => lemma_strcmp_labels(),
    }
}

/// Every jump of a compiled function goes to a label that its code binds, no label is bound
/// twice, and the labels left to its guest jumps are distinct and named nowhere else in it.
pub proof fn lemma_compiled_labels_resolved(
    instrs: Seq<IrView>,
    hooked: bool,
    lib: Map<usize, LibFuncs>,
    leaders: Set<usize>,
    exits0: Map<usize, ExitType>,
    mem_size: usize,
    opts: JitOptions,
)
    requires
        compilable(instrs, hooked, lib, exits0, mem_size),
    ensures
        labels_resolved(compiled(instrs, hooked, lib, leaders, exits0, mem_size, opts)),
{
    let init = entry_pc(instrs);
    if hooked {
        lemma_exit_labels(3, Opnd::U64(init as u64));
    } else if lib.contains_key(init) {
        lemma_lib_labels(lib[init]);
    } else {
        lemma_code_upto_labels(instrs, instrs.len(), init, exits0, leaders, mem_size, opts);
    }
}

/// The code of a guest jump binds and uses at most the label left for it.
pub proof fn lemma_guest_jump_labels(known: Option<usize>, addr: usize, l: usize)
    ensures
        labels_resolved(crate::jit::guest_jump(known, addr, l)),
        labels_within(crate::jit::guest_jump(known, addr, l), l as int, l + 1),
{
    reveal_with_fuel(bound_labels, 9);
    reveal_with_fuel(used_labels, 9);
    reveal_with_fuel(reserved_labels, 9);
    match known {
        Some(_) => {},
        None => {
            let code = crate::jit::guest_jump(known, addr, l);
            assert(bound_labels(code) =~= seq![l]);
            assert(used_labels(code) =~= seq![l]);
            assert(seq![l][0] == l);
        },
    }
}

} // verus!
