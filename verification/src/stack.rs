//! The guest's initial stack: the argument strings in heap chunks, then argc, the argument
//! pointers and empty environment and auxiliary vectors pushed below the stack pointer.
use vstd::prelude::*;
use vstd::bytes::*;
use vstd::utf8::encode_utf8;

use crate::emulator::{Emulator, Fault, Register};
use crate::mmu::{
    Perms, access_outcome, aligned_chunk, first_lacking, has_perms, lacks_in, lemma_first_lacking,
    splice,
};

verus! {

/// Bytes of stack that the guest starts with
pub const STACK_SIZE: usize = 1024 * 1024;

/// Bytes of the heap chunk that holds each argument string
pub const ARG_SIZE: usize = 64;

/// The addresses of `n` argument chunks handed out one after the other, the first at `first`
pub open spec fn arg_addrs(first: int, n: nat) -> Seq<usize> {
    Seq::new(n, |i: int| (first + aligned_chunk(ARG_SIZE as int) * i) as usize)
}

/// The UTF-8 bytes of every argument fit in its chunk
pub open spec fn args_fit(args: Seq<String>) -> bool {
    forall|i: int| 0 <= i < args.len() ==> encode_utf8((#[trigger] args[i])@).len() <= ARG_SIZE
}

/// The memory `m` holds the UTF-8 bytes of each argument at its address in `argv`
pub open spec fn args_placed(m: Seq<u8>, args: Seq<String>, argv: Seq<usize>) -> bool {
    forall|i: int|
        0 <= i < args.len() ==> m.subrange(argv[i] as int, argv[i] + encode_utf8((#[trigger] args[i])@).len())
            == encode_utf8(args[i]@)
}

/// The bytes and permissions below `addr` are as they were
pub open spec fn same_below(old: Emulator, new: Emulator, addr: int) -> bool {
    &&& new.memory.memory@.len() == old.memory.memory@.len()
    &&& new.memory.permissions@.len() == old.memory.permissions@.len()
    &&& forall|j: int|
        0 <= j < addr && j < old.memory.memory@.len() ==> #[trigger] new.memory.memory@[j]
            == old.memory.memory@[j] && new.memory.permissions@[j] == old.memory.permissions@[j]
}

/// Only the memory unit changed: registers and every other part of the emulator are as they were
pub open spec fn only_memory_changed(old: Emulator, new: Emulator) -> bool {
    &&& new.regs@ == old.regs@
    &&& new.fd_list == old.fd_list
    &&& new.fuzz_input == old.fuzz_input
    &&& new.custom_lib == old.custom_lib
    &&& new.functions == old.functions
    &&& new.exit_conds == old.exit_conds
    &&& new.snapshot_addr == old.snapshot_addr
    &&& new.timeout == old.timeout
}

/// The bytes of `ws`, each word little-endian, first word first
pub open spec fn words_bytes(ws: Seq<u64>) -> Seq<u8>
    decreases ws.len(),
{
    if ws.len() == 0 {
        Seq::empty()
    } else {
        spec_u64_to_le_bytes(ws[0]) + words_bytes(ws.drop_first())
    }
}

/// The words that start the guest's stack, from the stack pointer up: the argument count, the
/// argument pointers, the null that ends them, an empty environment and an empty auxiliary vector
pub open spec fn initial_stack(argv: Seq<usize>) -> Seq<u64> {
    seq![argv.len() as u64] + argv.map_values(|a: usize| a as u64) + seq![0u64, 0u64, 0u64]
}

/// Everything but the memory bytes and the registers is as it was
pub open spec fn only_stack_changed(old: Emulator, new: Emulator) -> bool {
    &&& new.memory.permissions@ == old.memory.permissions@
    &&& new.memory.alloc_cursor() == old.memory.alloc_cursor()
    &&& new.fd_list == old.fd_list
    &&& new.fuzz_input == old.fuzz_input
    &&& new.custom_lib == old.custom_lib
    &&& new.functions == old.functions
    &&& new.exit_conds == old.exit_conds
    &&& new.snapshot_addr == old.snapshot_addr
    &&& new.timeout == old.timeout
}

proof fn lemma_words_bytes_len(ws: Seq<u64>)
    ensures
        words_bytes(ws).len() == 8 * ws.len(),
    decreases ws.len(),
{
    lemma_auto_spec_u64_to_from_le_bytes();
    if ws.len() > 0 {
        lemma_words_bytes_len(ws.drop_first());
    }
}

/// Writing a word just below bytes that were spliced in extends the splice downwards
proof fn lemma_splice_below(m: Seq<u8>, a: int, b: Seq<u8>, w: Seq<u8>)
    requires
        0 <= a,
        b.len() == 8,
        a + 8 + w.len() <= m.len(),
    ensures
        splice(splice(m, a + 8, w), a, b) == splice(m, a, b + w),
{
    assert(splice(splice(m, a + 8, w), a, b) =~= splice(m, a, b + w));
}

impl Emulator {
    /// Push a 64-bit word onto the guest's stack: the stack pointer moves down by 8 and the
    /// word is written there, little-endian. Where those 8 bytes are not writable, nothing
    /// changes and the write fault is returned.
    pub fn push(&mut self, val: u64) -> (r: Result<(), Fault>)
        requires
            old(self).wf(),
            8 <= old(self).reg(Register::Sp) <= old(self).memory.memory@.len(),
        ensures
            final(self).wf(),
            only_stack_changed(*old(self), *final(self)),
            r == access_outcome(
                old(self).memory.permissions@,
                old(self).reg(Register::Sp) - 8,
                8,
                8,
                Perms::WRITE,
                true,
            ),
            r is Ok ==> final(self).memory.memory@ == splice(
                old(self).memory.memory@,
                old(self).reg(Register::Sp) - 8,
                spec_u64_to_le_bytes(val),
            ),
            r is Ok ==> final(self).regs@ == old(self).regs@.update(
                Register::Sp.id(),
                (old(self).reg(Register::Sp) - 8) as usize,
            ),
            r is Err ==> final(self).memory.memory@ == old(self).memory.memory@,
            r is Err ==> final(self).regs@ == old(self).regs@,
    {
        proof {
            lemma_auto_spec_u64_to_from_le_bytes();
        }
        let sp = self.get_reg(Register::Sp) - 8;
        let bytes = u64_to_le_bytes(val);
        self.memory.write_mem(sp, bytes.as_slice(), 8)?;
        assert(bytes@.subrange(0, 8) =~= bytes@);
        self.set_reg(Register::Sp, sp);
        Ok(())
    }

    /// Lay out argc, the argument pointers `argv` and empty environment and auxiliary vectors
    /// below the stack pointer, pushing each word in turn from the top. This succeeds exactly
    /// when all the bytes it covers are writable; then the stack pointer points at argc.
    /// Otherwise the first push that meets a byte without write permission fails with the
    /// fault for that byte.
    pub fn push_initial_stack(&mut self, argv: &Vec<usize>) -> (r: Result<(), Fault>)
        requires
            old(self).wf(),
            8 * (argv@.len() + 4) <= old(self).reg(Register::Sp) <= old(self).memory.memory@.len(),
        ensures
            final(self).wf(),
            only_stack_changed(*old(self), *final(self)),
            ({
                let sp = old(self).reg(Register::Sp) as int;
                let lo = sp - 8 * (argv@.len() + 4);
                &&& (r is Ok <==> !lacks_in(old(self).memory.permissions@, lo, sp, Perms::WRITE))
                &&& r is Ok ==> final(self).memory.memory@ == splice(
                    old(self).memory.memory@,
                    lo,
                    words_bytes(initial_stack(argv@)),
                )
                &&& r is Ok ==> final(self).regs@ == old(self).regs@.update(Register::Sp.id(), lo as usize)
                &&& r matches Err(f) ==> exists|i: int|
                    lo <= i < sp && !has_perms(old(self).memory.permissions@[i], Perms::WRITE)
                        && f == Fault::WriteFault(i as usize)
            }),
    {
        let ghost e0 = *self;
        let ghost sp0 = self.reg(Register::Sp) as int;
        let ghost st = initial_stack(argv@);
        let n = argv.len();
        assert(st.len() == n + 4);
        let ghost total = (n + 4) as int;
        // The words still to push, counted from the top: after `m` pushes the top `m` words of
        // `st` lie at the stack pointer
        let mut m: usize = 0;
        proof {
            assert(st.subrange(total, total) =~= Seq::<u64>::empty());
            assert(splice(e0.memory.memory@, sp0, Seq::<u8>::empty()) =~= e0.memory.memory@);
            assert(e0.regs@.update(Register::Sp.id(), sp0 as usize) =~= e0.regs@);
        }
        while m < n + 4
            invariant
                *old(self) == e0,
                self.wf(),
                only_stack_changed(e0, *self),
                e0.wf(),
                n == argv@.len(),
                st == initial_stack(argv@),
                total == n + 4,
                st.len() == total,
                sp0 == e0.reg(Register::Sp),
                8 * total <= sp0 <= e0.memory.memory@.len(),
                m <= total,
                self.reg(Register::Sp) == sp0 - 8 * m,
                self.regs@ == e0.regs@.update(Register::Sp.id(), (sp0 - 8 * m) as usize),
                self.memory.memory@ == splice(
                    e0.memory.memory@,
                    sp0 - 8 * m,
                    words_bytes(st.subrange(total - m, total)),
                ),
                !lacks_in(e0.memory.permissions@, sp0 - 8 * m, sp0, Perms::WRITE),
                self.memory.memory@.len() == e0.memory.memory@.len(),
            decreases total - m,
        {
            let idx: usize = n + 3 - m;
            let word: u64 = if idx == 0 {
                n as u64
            } else if idx <= n {
                argv[idx - 1] as u64
            } else {
                0
            };
            assert(word == st[idx as int]);
            let ghost before = *self;
            let ghost cur = sp0 - 8 * m;
            let res = self.push(word);
            match res {
                Ok(()) => {
                    proof {
                        lemma_auto_spec_u64_to_from_le_bytes();
                        lemma_first_lacking(before.memory.permissions@, cur - 8, cur, Perms::WRITE);
                        let tail = st.subrange(total - m, total);
                        let longer = st.subrange(total - (m + 1), total);
                        assert(longer.drop_first() =~= tail);
                        assert(longer[0] == word);
                        lemma_words_bytes_len(tail);
                        lemma_splice_below(
                            e0.memory.memory@,
                            cur - 8,
                            spec_u64_to_le_bytes(word),
                            words_bytes(tail),
                        );
                        assert(words_bytes(longer) == spec_u64_to_le_bytes(word) + words_bytes(tail));
                        assert(self.regs@ =~= e0.regs@.update(Register::Sp.id(), (cur - 8) as usize));
                        assert forall|j: int| cur - 8 <= j < sp0 implies has_perms(
                            e0.memory.permissions@[j],
                            Perms::WRITE,
                        ) by {
                            if j >= cur {
                                if !has_perms(e0.memory.permissions@[j], Perms::WRITE) {
                                    assert(lacks_in(e0.memory.permissions@, cur, sp0, Perms::WRITE));
                                }
                            }
                        }
                    }
                },
                Err(f) => {
                    proof {
                        lemma_first_lacking(before.memory.permissions@, cur - 8, cur, Perms::WRITE);
                        let i = first_lacking(before.memory.permissions@, cur - 8, cur, Perms::WRITE)->0;
                        assert(lacks_in(e0.memory.permissions@, sp0 - 8 * total, sp0, Perms::WRITE));
                        assert(sp0 - 8 * total <= i < sp0);
                        assert(!has_perms(e0.memory.permissions@[i], Perms::WRITE));
                        assert(f == Fault::WriteFault(i as usize));
                    }
                    return Err(f);
                },
            }
            m = m + 1;
        }
        proof {
            assert(st.subrange(0, total) =~= st);
        }
        Ok(())
    }

    /// Copy one argument string into a fresh readable and writable chunk of `ARG_SIZE` bytes and
    /// return its address; without room for the chunk, nothing changes
    fn place_argument(&mut self, arg: &str) -> (r: Option<usize>)
        requires
            old(self).wf(),
            encode_utf8(arg@).len() <= ARG_SIZE,
        ensures
            final(self).wf(),
            only_memory_changed(*old(self), *final(self)),
            ({
                let base = old(self).memory.alloc_cursor() + 8;
                let len = old(self).memory.memory@.len();
                &&& (r is None <==> base + aligned_chunk(ARG_SIZE as int) >= len)
                &&& r is None ==> final(self).memory.same_as(&old(self).memory)
                &&& r is Some ==> r == Some(base as usize)
                &&& r is Some ==> final(self).memory.alloc_cursor() == old(self).memory.alloc_cursor()
                    + aligned_chunk(ARG_SIZE as int)
                &&& r is Some ==> same_below(*old(self), *final(self), base - 8)
                &&& r is Some ==> final(self).memory.memory@.subrange(base, base + encode_utf8(arg@).len())
                    == encode_utf8(arg@)
            }),
    {
        let ghost e0 = *self;
        let rw: u8 = Perms::READ | Perms::WRITE;
        assert(rw & Perms::WRITE == Perms::WRITE) by (bit_vector)
            requires
                rw == Perms::READ | Perms::WRITE,
        ;
        let addr = self.memory.allocate(ARG_SIZE, rw)?;
        let ghost e1 = *self;
        let bytes = arg.as_bytes();
        let n = arg.len();
        proof {
            lemma_auto_spec_u64_to_from_le_bytes();
            let base = addr as int;
            assert(aligned_chunk(ARG_SIZE as int) == 80);
            lemma_first_lacking(e1.memory.permissions@, base, base + n, Perms::WRITE);
            assert forall|j: int| base <= j < base + n implies has_perms(
                #[trigger] e1.memory.permissions@[j],
                Perms::WRITE,
            ) by {
                assert(e1.memory.permissions@[j] == rw);
            }
        }
        let res = self.memory.write_mem(addr, bytes, n);
        proof {
            let base = addr as int;
            assert(res is Ok);
            assert(bytes@.subrange(0, n as int) =~= bytes@);
            assert(self.memory.memory@.subrange(base, base + n) =~= encode_utf8(arg@));
            assert forall|j: int| 0 <= j < base - 8 && j < e0.memory.memory@.len() implies #[trigger]
                self.memory.memory@[j] == e0.memory.memory@[j] && self.memory.permissions@[j]
                    == e0.memory.permissions@[j] by {
                assert(e1.memory.memory@[j] == e0.memory.memory@[j]);
                assert(e1.memory.permissions@[j] == e0.memory.permissions@[j]);
            }
        }
        Some(addr)
    }

    /// Copy each argument string into a fresh chunk of `ARG_SIZE` bytes, in order, and return
    /// the chunks' addresses. This fails with an out-of-memory fault exactly when the chunks do
    /// not all fit.
    pub fn place_arguments(&mut self, args: &Vec<String>) -> (r: Result<Vec<usize>, Fault>)
        requires
            old(self).wf(),
            args_fit(args@),
        ensures
            final(self).wf(),
            only_memory_changed(*old(self), *final(self)),
            ({
                let first = old(self).memory.alloc_cursor() + 8;
                let n = args@.len();
                let chunk = aligned_chunk(ARG_SIZE as int);
                &&& (r is Ok <==> (n == 0 || first + chunk * n < old(self).memory.memory@.len()))
                &&& r is Err ==> r == Err::<Vec<usize>, Fault>(Fault::OOM)
                &&& same_below(*old(self), *final(self), first - 8)
                &&& r matches Ok(argv) ==> argv@ == arg_addrs(first, n)
                &&& r matches Ok(argv) ==> args_placed(final(self).memory.memory@, args@, argv@)
                &&& r is Ok ==> final(self).memory.alloc_cursor() == old(self).memory.alloc_cursor() + chunk * n
            }),
    {
        let ghost e0 = *self;
        let ghost first = e0.memory.alloc_cursor() + 8;
        let ghost len = e0.memory.memory@.len() as int;
        assert(aligned_chunk(ARG_SIZE as int) == 80);
        let mut argv: Vec<usize> = Vec::new();
        let mut i: usize = 0;
        while i < args.len()
            invariant
                *old(self) == e0,
                self.wf(),
                only_memory_changed(e0, *self),
                first == e0.memory.alloc_cursor() + 8,
                len == e0.memory.memory@.len(),
                args_fit(args@),
                i <= args@.len(),
                i > 0 ==> first + 80 * i < len,
                self.memory.alloc_cursor() == e0.memory.alloc_cursor() + 80 * i,
                same_below(e0, *self, first - 8),
                argv@ == arg_addrs(first, i as nat),
                forall|k: int|
                    0 <= k < i ==> self.memory.memory@.subrange(
                        argv@[k] as int,
                        argv@[k] + encode_utf8((#[trigger] args@[k])@).len(),
                    ) == encode_utf8(args@[k]@),
            decreases args@.len() - i,
        {
            let ghost before = *self;
            let arg: &String = &args[i];
            assert(encode_utf8(args@[i as int]@).len() <= ARG_SIZE);
            let placed = self.place_argument(arg.as_str());
            match placed {
                Some(addr) => {
                    proof {
                        assert forall|k: int|
                            0 <= k < i + 1 implies self.memory.memory@.subrange(
                            argv@.push(addr)[k] as int,
                            argv@.push(addr)[k] + encode_utf8((#[trigger] args@[k])@).len(),
                        ) == encode_utf8(args@[k]@) by {
                            if k < i {
                                let a = argv@[k] as int;
                                let l = encode_utf8(args@[k]@).len() as int;
                                assert(a + l <= a + 64);
                                assert(a + 80 <= addr);
                                assert(self.memory.memory@.subrange(a, a + l) =~= before.memory.memory@.subrange(a, a + l)) by {
                                    assert forall|j: int| a <= j < a + l implies self.memory.memory@[j]
                                        == before.memory.memory@[j] by {
                                        assert(j < addr - 8);
                                    }
                                }
                            }
                        }
                        assert forall|j: int| 0 <= j < first - 8 && j < e0.memory.memory@.len() implies #[trigger]
                            self.memory.memory@[j] == e0.memory.memory@[j] && self.memory.permissions@[j]
                                == e0.memory.permissions@[j] by {
                            assert(before.memory.memory@[j] == e0.memory.memory@[j]);
                            assert(j < addr - 8);
                        }
                        assert(argv@.push(addr) =~= arg_addrs(first, (i + 1) as nat));
                    }
                    argv.push(addr);
                },
                None => {
                    proof {
                        assert(first + 80 * args@.len() >= len);
                        assert(aligned_chunk(ARG_SIZE as int) * args@.len() == 80 * args@.len());
                        assert forall|j: int| 0 <= j < first - 8 && j < e0.memory.memory@.len() implies #[trigger]
                            self.memory.memory@[j] == e0.memory.memory@[j] && self.memory.permissions@[j]
                                == e0.memory.permissions@[j] by {
                            assert(before.memory.memory@[j] == e0.memory.memory@[j]);
                        }
                        assert(same_below(e0, *self, first - 8));
                    }
                    return Err(Fault::OOM);
                },
            }
            i = i + 1;
        }
        Ok(argv)
    }

    /// Set the guest up to run: a fresh stack of `STACK_SIZE` readable and writable bytes with
    /// the stack pointer 8 bytes below its top, each argument string in a chunk of its own, and
    /// below the stack pointer argc, the argument pointers and empty environment and auxiliary
    /// vectors. This fails with an out-of-memory fault exactly when the stack and the argument
    /// chunks do not all fit.
    pub fn setup_stack(&mut self, args: &Vec<String>) -> (r: Result<(), Fault>)
        requires
            old(self).wf(),
            args_fit(args@),
            8 * (args@.len() + 4) <= STACK_SIZE - 8,
        ensures
            final(self).wf(),
            final(self).fd_list == old(self).fd_list,
            final(self).fuzz_input == old(self).fuzz_input,
            final(self).custom_lib == old(self).custom_lib,
            final(self).functions == old(self).functions,
            final(self).exit_conds == old(self).exit_conds,
            ({
                let stack = old(self).memory.alloc_cursor() + 8;
                let first = stack + aligned_chunk(STACK_SIZE as int);
                let n = args@.len();
                let top = stack + STACK_SIZE - 8;
                let lo = top - 8 * (n + 4);
                let argv = arg_addrs(first, n);
                &&& (r is Ok <==> first < old(self).memory.memory@.len() && (n == 0 || first
                    + aligned_chunk(ARG_SIZE as int) * n < old(self).memory.memory@.len()))
                &&& r is Err ==> r == Err::<(), Fault>(Fault::OOM)
                &&& r is Ok ==> final(self).regs@ == old(self).regs@.update(Register::Sp.id(), lo as usize)
                &&& r is Ok ==> final(self).memory.memory@.subrange(lo, top) == words_bytes(initial_stack(argv))
                &&& r is Ok ==> args_placed(final(self).memory.memory@, args@, argv)
            }),
    {
        let ghost e0 = *self;
        let ghost stack0 = e0.memory.alloc_cursor() + 8;
        let rw: u8 = Perms::READ | Perms::WRITE;
        assert(rw & Perms::WRITE == Perms::WRITE) by (bit_vector)
            requires
                rw == Perms::READ | Perms::WRITE,
        ;
        assert(aligned_chunk(STACK_SIZE as int) == STACK_SIZE + 16);
        let stack = match self.memory.allocate(STACK_SIZE, rw) {
            Some(a) => a,
            None => return Err(Fault::OOM),
        };
        let ghost e1 = *self;
        proof {
            lemma_auto_spec_u64_to_from_le_bytes();
            assert(stack == stack0);
            assert(e1.memory.alloc_cursor() + 8 == stack0 + aligned_chunk(STACK_SIZE as int));
        }
        let sp = stack + STACK_SIZE - 8;
        self.set_reg(Register::Sp, sp);
        let argv = match self.place_arguments(args) {
            Ok(v) => v,
            Err(f) => {
                return Err(f);
            },
        };
        let ghost e3 = *self;
        let ghost lo = sp - 8 * (args@.len() + 4);
        proof {
            assert forall|j: int| lo <= j < sp implies has_perms(
                #[trigger] e3.memory.permissions@[j],
                Perms::WRITE,
            ) by {
                assert(e3.memory.memory@[j] == e1.memory.memory@[j]);
                assert(e3.memory.permissions@[j] == e1.memory.permissions@[j]);
                assert(stack0 <= j < stack0 + STACK_SIZE);
                assert(e1.memory.permissions@[j] == rw);
            }
            if lacks_in(e3.memory.permissions@, lo, sp as int, Perms::WRITE) {
                let j = choose|j: int| lo <= j < sp && !has_perms(#[trigger] e3.memory.permissions@[j], Perms::WRITE);
                assert(has_perms(e3.memory.permissions@[j], Perms::WRITE));
            }
        }
        let pushed = self.push_initial_stack(&argv);
        proof {
            assert(pushed is Ok);
            let words = words_bytes(initial_stack(argv@));
            lemma_words_bytes_len(initial_stack(argv@));
            assert(self.memory.memory@.subrange(lo, sp as int) =~= words);
            assert(self.regs@ =~= e0.regs@.update(Register::Sp.id(), lo as usize));
            assert forall|i: int| 0 <= i < args@.len() implies self.memory.memory@.subrange(
                argv@[i] as int,
                argv@[i] + encode_utf8((#[trigger] args@[i])@).len(),
            ) == encode_utf8(args@[i]@) by {
                let a = argv@[i] as int;
                let l = encode_utf8(args@[i]@).len() as int;
                let first = stack0 + aligned_chunk(STACK_SIZE as int);
                assert(aligned_chunk(ARG_SIZE as int) == 80);
                assert(a == first + 80 * i);
                assert(first + 80 * args@.len() < e0.memory.memory@.len());
                assert(l <= 64);
                assert(sp < a);
                assert(a + l <= e3.memory.memory@.len());
                assert(self.memory.memory@.subrange(a, a + l) =~= e3.memory.memory@.subrange(a, a + l));
            }
        }
        Ok(())
    }
}

} // verus!
