use vstd::prelude::*;
use vstd::bytes::*;

use crate::emulator::{Emulator, Fault, FileType, Register, file_view, files_view, fresh_file};
use crate::mmu::{Mmu, Perms, first_lacking, has_perms, write_post, lemma_first_lacking, lemma_write_then_read};

verus! {

/// The parts of the emulator that a syscall leaves alone, apart from its memory
pub open spec fn keeps_setup(old: Emulator, new: Emulator) -> bool {
    &&& new.custom_lib == old.custom_lib
    &&& new.functions == old.functions
    &&& new.fuzz_input == old.fuzz_input
    &&& new.exit_conds == old.exit_conds
    &&& new.snapshot_addr == old.snapshot_addr
    &&& new.timeout == old.timeout
}

/// The registers of `old` with the return register `a0` set to `v`
pub open spec fn ret_regs(old: Emulator, v: usize) -> Seq<usize> {
    old.regs@.update(Register::A0.id(), v)
}

/// `n` bytes can be written at `addr`: they lie in guest memory and are all writable
pub open spec fn writable(m: Mmu, addr: int, n: int) -> bool {
    &&& addr + n <= m.memory@.len()
    &&& first_lacking(m.permissions@, addr, addr + n, Perms::WRITE) is None
}

/// The `stat` structure that `fstat` reports for the fuzz input, as the guest's C library lays it
/// out (little endian): fixed device, inode, mode, owner and times, and the input's size and
/// block count.
pub open spec fn stat_bytes(size: i64) -> Seq<u8> {
    spec_u64_to_le_bytes(0x803)
        + spec_u64_to_le_bytes(0x81889)
        + spec_u32_to_le_bytes(0x81a4)
        + spec_u32_to_le_bytes(0x1)
        + spec_u32_to_le_bytes(0x3e8)
        + spec_u32_to_le_bytes(0x3e8)
        + spec_u64_to_le_bytes(0)
        + spec_u64_to_le_bytes(0)
        + spec_u64_to_le_bytes(size as u64)
        + spec_u32_to_le_bytes(0x1000)
        + spec_u32_to_le_bytes(0)
        + spec_u64_to_le_bytes(((size + 511) / 512) as i64 as u64)
        + spec_u64_to_le_bytes(0x5f0fe246)
        + spec_u64_to_le_bytes(0)
        + spec_u64_to_le_bytes(0x5f0fe244)
        + spec_u64_to_le_bytes(0)
        + spec_u64_to_le_bytes(0x5f0fe244)
        + spec_u64_to_le_bytes(0)
        + spec_u32_to_le_bytes(0)
        + spec_u32_to_le_bytes(0)
}

fn push_bytes(out: &mut Vec<u8>, b: Vec<u8>)
    ensures
        final(out)@ == old(out)@ + b@,
{
    let mut i: usize = 0;
    while i < b.len()
        invariant
            i <= b@.len(),
            out@ == old(out)@ + b@.subrange(0, i as int),
        decreases b@.len() - i,
    {
        out.push(b[i]);
        assert(out@ =~= old(out)@ + b@.subrange(0, i + 1));
        i = i + 1;
    }
    assert(b@.subrange(0, b@.len() as int) =~= b@);
}

/// Lay out the `stat` structure for an input of `size` bytes
fn build_stat(size: i64) -> (r: Vec<u8>)
    requires
        size + 511 <= i64::MAX,
        size >= 0,
    ensures
        r@ == stat_bytes(size),
        r@.len() == 128,
{
    proof {
        lemma_auto_spec_u64_to_from_le_bytes();
        lemma_auto_spec_u32_to_from_le_bytes();
    }
    let mut r: Vec<u8> = Vec::new();
    push_bytes(&mut r, u64_to_le_bytes(0x803));
    push_bytes(&mut r, u64_to_le_bytes(0x81889));
    push_bytes(&mut r, u32_to_le_bytes(0x81a4));
    push_bytes(&mut r, u32_to_le_bytes(0x1));
    push_bytes(&mut r, u32_to_le_bytes(0x3e8));
    push_bytes(&mut r, u32_to_le_bytes(0x3e8));
    push_bytes(&mut r, u64_to_le_bytes(0));
    push_bytes(&mut r, u64_to_le_bytes(0));
    push_bytes(&mut r, u64_to_le_bytes(size as u64));
    push_bytes(&mut r, u32_to_le_bytes(0x1000));
    push_bytes(&mut r, u32_to_le_bytes(0));
    push_bytes(&mut r, u64_to_le_bytes(((size + 511) / 512) as u64));
    push_bytes(&mut r, u64_to_le_bytes(0x5f0fe246));
    push_bytes(&mut r, u64_to_le_bytes(0));
    push_bytes(&mut r, u64_to_le_bytes(0x5f0fe244));
    push_bytes(&mut r, u64_to_le_bytes(0));
    push_bytes(&mut r, u64_to_le_bytes(0x5f0fe244));
    push_bytes(&mut r, u64_to_le_bytes(0));
    push_bytes(&mut r, u32_to_le_bytes(0));
    push_bytes(&mut r, u32_to_le_bytes(0));
    assert(r@ =~= stat_bytes(size));
    r
}

/// The `exit` syscall: the process exits
pub fn exit() -> (r: Option<Fault>)
    ensures
        r == Some(Fault::Exit),
{
    Some(Fault::Exit)
}

/// `fstat` has a defined outcome: an unknown descriptor, a standard stream, or the fuzz input with
/// a writable buffer for its `stat` structure
pub open spec fn fstat_defined(emu: Emulator) -> bool {
    let fd = emu.reg(Register::A0) as int;
    fd < emu.fd_list@.len() ==> {
        &&& emu.fd_list@[fd].ftype != FileType::OTHER
        &&& emu.fd_list@[fd].ftype == FileType::FUZZINPUT ==> {
            &&& writable(emu.memory, emu.reg(Register::A1) as int, 128)
            &&& emu.fuzz_input@.len() + 511 <= i64::MAX
        }
    }
}

/// The `fstat` syscall: the fuzz input reports its `stat` structure into the buffer in `a1`;
/// other open descriptors and unknown ones answer -1

/// What the `fstat` syscall does to the emulator `old`, giving `new`
pub open spec fn fstat_effect(old: Emulator, new: Emulator) -> bool {
    &&& new.wf()
    &&& keeps_setup(old, new)
    &&& new.fd_list == old.fd_list
    &&& {
        let fd = old.reg(Register::A0) as int;
        if fd < old.fd_list@.len() && old.fd_list@[fd].ftype == FileType::FUZZINPUT {
            &&& write_post(
                old.memory,
                old.reg(Register::A1) as int,
                stat_bytes(old.fuzz_input@.len() as i64),
                128,
                Ok(()),
                new.memory,
            )
            &&& new.regs@ == ret_regs(old, 0)
        } else {
            &&& new.memory == old.memory
            &&& new.regs@ == ret_regs(old, usize::MAX)
        }
    }
}

pub fn fstat(emu: &mut Emulator) -> (r: Option<Fault>)
    requires
        old(emu).wf(),
        fstat_defined(*old(emu)),
    ensures
        r is None,
        fstat_effect(*old(emu), *final(emu)),
{
    let fd = emu.get_reg(Register::A0);
    let statbuf = emu.get_reg(Register::A1);

    // Check if the FD is valid
    if fd >= emu.fd_list.len() {
        emu.set_reg(Register::A0, usize::MAX);
        return None;
    }
    if emu.fd_list[fd].ftype == FileType::FUZZINPUT {
        let stat = build_stat(emu.fuzz_input.len() as i64);
        let w = emu.memory.write_mem(statbuf, stat.as_slice(), stat.len());
        assert(w is Ok);
        emu.set_reg(Register::A0, 0);
    } else {
        emu.set_reg(Register::A0, usize::MAX);
    }
    None
}

/// Where `lseek` moves the fuzz input's cursor: `None` for an unknown `whence`, else the
/// requested position clamped to the input
pub open spec fn lseek_pos(emu: Emulator, cur: usize) -> Option<usize> {
    let offset = emu.reg(Register::A1) as i64;
    let whence = emu.reg(Register::A2) as i32;
    let len = emu.fuzz_input@.len() as i64;
    let p: int = if whence == 0 {
        offset as int
    } else if whence == 1 {
        (cur as i64) + offset
    } else {
        len + offset
    };
    if whence < 0 || whence > 2 {
        None
    } else {
        let p1: int = if p < 0 { 0 } else { p };
        let p2: int = if p1 <= len { p1 } else { len as int };
        Some(p2 as i64 as usize)
    }
}

/// `lseek` has a defined outcome: the descriptor is not one past the table, an open one is the
/// fuzz input, and the new position fits in 64 signed bits
pub open spec fn lseek_defined(emu: Emulator) -> bool {
    let fd = emu.reg(Register::A0) as int;
    &&& fd < emu.fd_list@.len() && emu.fd_list@[fd].ftype != FileType::INVALID ==> {
        let offset = emu.reg(Register::A1) as i64;
        let whence = emu.reg(Register::A2) as i32;
        &&& emu.fd_list@[fd].ftype == FileType::FUZZINPUT
        &&& whence == 1 ==> i64::MIN <= (emu.fd_list@[fd].cursor.unwrap() as i64) + offset <= i64::MAX
        &&& whence == 2 ==> i64::MIN <= (emu.fuzz_input@.len() as i64) + offset <= i64::MAX
    }
}

/// The `lseek` syscall: moves the cursor of the fuzz input and returns its new position; an
/// unknown or closed descriptor, or an unknown `whence`, answers -1

/// What the `lseek` syscall does to the emulator `old`, giving `new`
pub open spec fn lseek_effect(old: Emulator, new: Emulator) -> bool {
    &&& new.wf()
    &&& keeps_setup(old, new)
    &&& new.memory == old.memory
    &&& {
        let fd = old.reg(Register::A0) as int;
        if fd >= old.fd_list@.len() || old.fd_list@[fd].ftype == FileType::INVALID {
            &&& new.regs@ == ret_regs(old, usize::MAX)
            &&& files_view(new.fd_list@) == files_view(old.fd_list@)
        } else {
            match lseek_pos(old, old.fd_list@[fd].cursor.unwrap()) {
                None => {
                    &&& new.regs@ == ret_regs(old, usize::MAX)
                    &&& files_view(new.fd_list@) == files_view(old.fd_list@)
                },
                Some(p) => {
                    &&& new.regs@ == ret_regs(old, p)
                    &&& files_view(new.fd_list@) == files_view(old.fd_list@).update(
                        fd,
                        (FileType::FUZZINPUT, file_view(old.fd_list@[fd]).1, Some(p)),
                    )
                },
            }
        }
    }
}

/// How `lseek` moves the cursor of an open descriptor: the target is the offset (register A1)
/// counted from the start of the fuzz input for SEEK_SET (whence 0), from the current position
/// for SEEK_CUR (1) and from the end for SEEK_END (2). Where the target lies within the input,
/// the cursor moves there and `lseek` returns it; a target before the start gives the start and
/// one past the end gives the end
pub proof fn lemma_lseek_moves_cursor(old: Emulator, new: Emulator)
    requires
        old.wf(),
        lseek_effect(old, new),
        old.fuzz_input@.len() <= i64::MAX,
        (old.reg(Register::A0) as int) < old.fd_list@.len(),
        old.fd_list@[old.reg(Register::A0) as int].ftype != FileType::INVALID,
        0 <= (old.reg(Register::A2) as i32) <= 2,
    ensures
        ({
            let fd = old.reg(Register::A0) as int;
            let off = (old.reg(Register::A1) as i64) as int;
            let whence = old.reg(Register::A2) as i32;
            let len = old.fuzz_input@.len() as int;
            let base: int = if whence == 0 {
                0
            } else if whence == 1 {
                (old.fd_list@[fd].cursor.unwrap() as i64) as int
            } else {
                len
            };
            let target = base + off;
            let pos: int = if target < 0 {
                0
            } else if target > len {
                len
            } else {
                target
            };
            &&& new.reg(Register::A0) as int == pos
            &&& new.fd_list@.len() == old.fd_list@.len()
            &&& new.fd_list@[fd].cursor == Some(pos as usize)
            &&& new.fd_list@[fd].ftype == FileType::FUZZINPUT
            &&& 0 <= off <= len && whence == 0 ==> new.reg(Register::A0) as int == off
        }),
{
    let fd = old.reg(Register::A0) as int;
    let cur = old.fd_list@[fd].cursor.unwrap();
    let len = old.fuzz_input@.len();
    assert(len == old.fuzz_input.len());
    assert(len as i64 == len);
    let p = lseek_pos(old, cur).unwrap();
    assert(files_view(new.fd_list@).len() == files_view(old.fd_list@).len());
    assert(files_view(new.fd_list@)[fd] == file_view(new.fd_list@[fd]));
    assert(new.regs@[Register::A0.id()] == p);
}

/// A read after `lseek(fd, off, SEEK_SET)` delivers the fuzz input from `off` on: where the
/// guest then calls `read` on the same descriptor (with the files and input as the seek left
/// them), it gets the next bytes of the input starting at `off`, as many as it asked for and
/// the input still holds, and the cursor ends after them
pub proof fn lemma_read_after_seek(e0: Emulator, e1: Emulator, e2: Emulator, e3: Emulator)
    requires
        e0.wf(),
        lseek_effect(e0, e1),
        e0.fuzz_input@.len() <= i64::MAX,
        (e0.reg(Register::A0) as int) < e0.fd_list@.len(),
        e0.fd_list@[e0.reg(Register::A0) as int].ftype == FileType::FUZZINPUT,
        (e0.reg(Register::A2) as i32) == 0,
        0 <= (e0.reg(Register::A1) as i64) <= e0.fuzz_input@.len(),
        files_view(e2.fd_list@) == files_view(e1.fd_list@),
        e2.fuzz_input@ == e1.fuzz_input@,
        e2.reg(Register::A0) == e0.reg(Register::A0),
        read_defined(e2),
        read_effect(e2, e3),
    ensures
        ({
            let fd = e0.reg(Register::A0) as int;
            let off = (e0.reg(Register::A1) as i64) as int;
            let count = e2.reg(Register::A2) as int;
            let n = if count <= e0.fuzz_input@.len() - off { count } else { e0.fuzz_input@.len() - off };
            let buf = e2.reg(Register::A1) as int;
            &&& e3.reg(Register::A0) as int == n
            &&& e3.memory.memory@.subrange(buf, buf + n) == e0.fuzz_input@.subrange(off, off + n)
            &&& e3.fd_list@[fd].cursor == Some((off + n) as usize)
        }),
{
    let fd = e0.reg(Register::A0) as int;
    let off = (e0.reg(Register::A1) as i64) as int;
    lemma_lseek_moves_cursor(e0, e1);
    assert(files_view(e2.fd_list@).len() == e2.fd_list@.len());
    assert(files_view(e1.fd_list@).len() == e1.fd_list@.len());
    assert(files_view(e2.fd_list@)[fd] == file_view(e2.fd_list@[fd]));
    assert(files_view(e1.fd_list@)[fd] == file_view(e1.fd_list@[fd]));
    assert(e2.fd_list@[fd].cursor == Some(off as usize));
    assert(e2.fd_list@[fd].ftype == FileType::FUZZINPUT);
    let n = read_len(e2, off as usize);
    let buf = e2.reg(Register::A1) as int;
    lemma_write_then_read(e2.memory, buf, e2.fuzz_input@.subrange(off, off + n), n, e3.memory);
    assert(files_view(e3.fd_list@).len() == files_view(e2.fd_list@).len());
    assert(files_view(e3.fd_list@)[fd] == file_view(e3.fd_list@[fd]));
    assert(e3.regs@[Register::A0.id()] == n);
}

pub fn lseek(emu: &mut Emulator) -> (r: Option<Fault>)
    requires
        old(emu).wf(),
        lseek_defined(*old(emu)),
    ensures
        r is None,
        lseek_effect(*old(emu), *final(emu)),
{
    let fd = emu.get_reg(Register::A0);
    let offset = emu.get_reg(Register::A1) as i64;
    let whence = emu.get_reg(Register::A2) as i32;

    if fd >= emu.fd_list.len() || emu.fd_list[fd].ftype == FileType::INVALID {
        emu.set_reg(Register::A0, usize::MAX);
        return None;
    }
    let cur = match emu.fd_list[fd].cursor {
        Some(c) => c,
        None => 0,
    };
    let len = emu.fuzz_input.len() as i64;
    let new_pos: i64 = match whence {
        0 => offset,
        1 => cur as i64 + offset,
        2 => len + offset,
        _ => {
            emu.set_reg(Register::A0, usize::MAX);
            return None;
        },
    };
    let new_pos = if new_pos < 0 { 0i64 } else { new_pos };
    let new_pos = if new_pos <= len { new_pos } else { len } as usize;
    emu.set_cursor(fd, new_pos);
    emu.set_reg(Register::A0, new_pos);
    proof {
        let ghost e = *emu;
        assert(files_view(e.fd_list@).len() == e.fd_list@.len());
        assert(files_view(old(emu).fd_list@).len() == old(emu).fd_list@.len());
        assert forall|i: int| 0 <= i < e.fd_list@.len() && (#[trigger] e.fd_list@[i].ftype
            == FileType::FUZZINPUT || e.fd_list@[i].ftype == FileType::OTHER) implies e.fd_list@[i].cursor is Some by {
            assert(files_view(e.fd_list@)[i] == file_view(e.fd_list@[i]));
            if i != fd {
                assert(files_view(old(emu).fd_list@)[i] == file_view(old(emu).fd_list@[i]));
            }
        }
    }
    None
}

/// The name that opens the fuzz input: "fuzz_input" and its terminating NUL
pub open spec fn fuzz_name() -> Seq<u8> {
    seq![102u8, 117u8, 122u8, 122u8, 95u8, 105u8, 110u8, 112u8, 117u8, 116u8, 0u8]
}

/// The guest string at `addr` ends with a NUL at `addr + n`, and all of it is readable
pub open spec fn cstr_at(m: Mmu, addr: int, n: int) -> bool {
    &&& 0 <= n
    &&& addr + n < m.memory@.len()
    &&& m.memory@[addr + n] == 0
    &&& forall|k: int| 0 <= k < n ==> #[trigger] m.memory@[addr + k] != 0
    &&& forall|k: int| 0 <= k <= n ==> has_perms(#[trigger] m.permissions@[addr + k], Perms::READ)
}

/// The guest string at `addr` names the fuzz input
pub open spec fn names_fuzz_input(m: Mmu, addr: int) -> bool {
    addr + 11 <= m.memory@.len() && m.memory@.subrange(addr, addr + 11) == fuzz_name()
}

/// `open` has a defined outcome: the file name is a readable NUL-terminated string
pub open spec fn open_defined(emu: Emulator) -> bool {
    exists|n: int| cstr_at(emu.memory, emu.reg(Register::A0) as int, n)
}

fn is_fuzz_name(buf: &Vec<u8>) -> (r: bool)
    ensures
        r == (buf@ == fuzz_name()),
{
    let name: [u8; 11] = [102, 117, 122, 122, 95, 105, 110, 112, 117, 116, 0];
    if buf.len() != 11 {
        return false;
    }
    let mut i: usize = 0;
    while i < 11
        invariant
            buf@.len() == 11,
            name@ == fuzz_name(),
            i <= 11,
            forall|k: int| 0 <= k < i ==> buf@[k] == fuzz_name()[k],
        decreases 11 - i,
    {
        if buf[i] != name[i] {
            return false;
        }
        i = i + 1;
    }
    assert(buf@ =~= fuzz_name());
    true
}

/// The `open` syscall: opens a new file (the fuzz input, if so named) and returns its descriptor

/// What the `open` syscall does to the emulator `old`, giving `new`
pub open spec fn open_effect(old: Emulator, new: Emulator) -> bool {
    &&& new.wf()
    &&& keeps_setup(old, new)
    &&& new.memory == old.memory
    &&& files_view(new.fd_list@) == files_view(old.fd_list@).push(
        fresh_file(
            if names_fuzz_input(old.memory, old.reg(Register::A0) as int) {
                FileType::FUZZINPUT
            } else {
                FileType::OTHER
            },
        ),
    )
    &&& new.regs@ == ret_regs(old, old.fd_list@.len() as usize)
}

pub fn open(emu: &mut Emulator) -> (r: Option<Fault>)
    requires
        old(emu).wf(),
        open_defined(*old(emu)),
    ensures
        r is None,
        open_effect(*old(emu), *final(emu)),
{
    let filename = emu.get_reg(Register::A0);
    let ghost n = choose|n: int| cstr_at(emu.memory, filename as int, n);
    let mut buf: Vec<u8> = Vec::new();
    let mut cur: usize = 0;
    loop
        invariant_except_break
            buf@ == emu.memory.memory@.subrange(filename as int, filename + cur),
        invariant
            emu.wf(),
            cstr_at(emu.memory, filename as int, n),
            cur <= n,
        ensures
            buf@ == emu.memory.memory@.subrange(filename as int, filename + n + 1),
        decreases n - cur,
    {
        let ghost a = filename + cur;
        assert(has_perms(emu.memory.permissions@[filename + cur], Perms::READ));
        assert(first_lacking(emu.memory.permissions@, a, a + 1, Perms::READ) is None) by {
            reveal_with_fuel(first_lacking, 2);
        }
        let c: u8 = match emu.memory.read_at(filename + cur, Perms::READ) {
            Ok(c) => c,
            Err(_) => 0,
        };
        assert(c == emu.memory.memory@[a]);
        buf.push(c);
        assert(buf@ =~= emu.memory.memory@.subrange(filename as int, filename + cur + 1));
        if c == 0 {
            proof {
                if cur < n {
                    assert(emu.memory.memory@[filename + cur] != 0);
                }
            }
            break;
        }
        cur = cur + 1;
    }
    let is_fuzz = is_fuzz_name(&buf);
    proof {
        let m = emu.memory;
        if names_fuzz_input(m, filename as int) {
            if n < 10 {
                assert(m.memory@[filename + n] == m.memory@.subrange(filename as int, filename + 11)[n]);
            }
            if n > 10 {
                assert(m.memory@[filename + 10] == m.memory@.subrange(filename as int, filename + 11)[10]);
            }
            assert(buf@ =~= fuzz_name());
        }
        if is_fuzz {
            assert(m.memory@.subrange(filename as int, filename + 11) =~= fuzz_name());
        }
    }
    let fd = if is_fuzz {
        emu.alloc_file(FileType::FUZZINPUT)
    } else {
        emu.alloc_file(FileType::OTHER)
    };
    emu.set_reg(Register::A0, fd);
    None
}

/// How many bytes `read` takes from the fuzz input at cursor `off`
pub open spec fn read_len(emu: Emulator, off: usize) -> int {
    let count = emu.reg(Register::A2) as int;
    let rest = emu.fuzz_input@.len() - off;
    if count <= rest { count } else { rest }
}

/// `read` has a defined outcome: the descriptor is not one past the table, and a read of the
/// fuzz input starts inside it and lands in writable memory
pub open spec fn read_defined(emu: Emulator) -> bool {
    let fd = emu.reg(Register::A0) as int;
    &&& fd < emu.fd_list@.len() && emu.fd_list@[fd].ftype == FileType::FUZZINPUT ==> {
        let off = emu.fd_list@[fd].cursor.unwrap();
        &&& off <= emu.fuzz_input@.len()
        &&& writable(emu.memory, emu.reg(Register::A1) as int, read_len(emu, off))
    }
}

/// The `read` syscall: copies the rest of the fuzz input (at most `a2` bytes) to the buffer in
/// `a1`, advances the cursor and returns the count; other open files pretend to deliver `a2`
/// bytes; an unknown or closed descriptor answers -1

/// What the `read` syscall does to the emulator `old`, giving `new`
pub open spec fn read_effect(old: Emulator, new: Emulator) -> bool {
    &&& new.wf()
    &&& keeps_setup(old, new)
    &&& {
        let fd = old.reg(Register::A0) as int;
        if fd >= old.fd_list@.len() || old.fd_list@[fd].ftype == FileType::INVALID {
            &&& new.regs@ == ret_regs(old, usize::MAX)
            &&& new.memory == old.memory
            &&& files_view(new.fd_list@) == files_view(old.fd_list@)
        } else if old.fd_list@[fd].ftype == FileType::FUZZINPUT {
            let off = old.fd_list@[fd].cursor.unwrap();
            let n = read_len(old, off);
            &&& write_post(
                old.memory,
                old.reg(Register::A1) as int,
                old.fuzz_input@.subrange(off as int, off + n),
                n,
                Ok(()),
                new.memory,
            )
            &&& new.regs@ == ret_regs(old, n as usize)
            &&& files_view(new.fd_list@) == files_view(old.fd_list@).update(
                fd,
                (FileType::FUZZINPUT, file_view(old.fd_list@[fd]).1, Some((off + n) as usize)),
            )
        } else {
            &&& new.regs@ == ret_regs(old, old.reg(Register::A2))
            &&& new.memory == old.memory
            &&& files_view(new.fd_list@) == files_view(old.fd_list@)
        }
    }
}

pub fn read(emu: &mut Emulator) -> (r: Option<Fault>)
    requires
        old(emu).wf(),
        read_defined(*old(emu)),
    ensures
        r is None,
        read_effect(*old(emu), *final(emu)),
{
    let fd = emu.get_reg(Register::A0);
    let buf = emu.get_reg(Register::A1);
    let count = emu.get_reg(Register::A2);

    // If the fd does not exist, return an error
    if fd >= emu.fd_list.len() || emu.fd_list[fd].ftype == FileType::INVALID {
        emu.set_reg(Register::A0, usize::MAX);
        return None;
    }

    // Special case, reading in the fuzzinput
    if emu.fd_list[fd].ftype == FileType::FUZZINPUT {
        let offset = match emu.fd_list[fd].cursor {
            Some(c) => c,
            None => 0,
        };
        let rest = emu.fuzz_input.len() - offset;
        let len = if count <= rest { count } else { rest };
        let src = vstd::slice::slice_subrange(emu.fuzz_input.as_slice(), offset, offset + len);
        let w = emu.memory.write_mem(buf, src, len);
        assert(w is Ok);
        assert(src@.subrange(0, len as int) =~= src@);
        emu.set_reg(Register::A0, len);
        emu.set_cursor(fd, offset + len);
        proof {
            let ghost e = *emu;
            assert(files_view(e.fd_list@).len() == e.fd_list@.len());
            assert(files_view(old(emu).fd_list@).len() == old(emu).fd_list@.len());
            assert forall|i: int| 0 <= i < e.fd_list@.len() && (#[trigger] e.fd_list@[i].ftype
                == FileType::FUZZINPUT || e.fd_list@[i].ftype == FileType::OTHER) implies e.fd_list@[i].cursor is Some by {
                assert(files_view(e.fd_list@)[i] == file_view(e.fd_list@[i]));
                if i != fd {
                    assert(files_view(old(emu).fd_list@)[i] == file_view(old(emu).fd_list@[i]));
                }
            }
        }
    } else {
        // Another file: pretend that the whole request was served
        emu.set_reg(Register::A0, count);
    }
    None
}

/// The `write` syscall: output is discarded; an open descriptor reports `a2` bytes written, an
/// unknown one -1

/// What the `write` syscall does to the emulator `old`, giving `new`
pub open spec fn write_effect(old: Emulator, new: Emulator) -> bool {
    &&& new.wf()
    &&& keeps_setup(old, new)
    &&& new.memory == old.memory
    &&& new.fd_list == old.fd_list
    &&& new.regs@ == ret_regs(
        old,
        if old.reg(Register::A0) < old.fd_list@.len() {
            old.reg(Register::A2)
        } else {
            usize::MAX
        },
    )
}

pub fn write(emu: &mut Emulator) -> (r: Option<Fault>)
    requires
        old(emu).wf(),
    ensures
        r is None,
        write_effect(*old(emu), *final(emu)),
{
    let fd = emu.get_reg(Register::A0);
    let count = emu.get_reg(Register::A2);
    if fd >= emu.fd_list.len() {
        emu.set_reg(Register::A0, usize::MAX);
        return None;
    }
    emu.set_reg(Register::A0, count);
    None
}

/// The `brk` syscall, of which only the query of the current break (`a0 == 0`) is supported: it
/// answers 0

/// What the `brk` syscall does to the emulator `old`, giving `new`
pub open spec fn brk_effect(old: Emulator, new: Emulator) -> bool {
    &&& keeps_setup(old, new)
    &&& new.memory == old.memory
    &&& new.fd_list == old.fd_list
    &&& new.regs@ == ret_regs(old, 0)
}

pub fn brk(emu: &mut Emulator) -> (r: Option<Fault>)
    requires
        old(emu).reg(Register::A0) == 0,
    ensures
        r is None,
        brk_effect(*old(emu), *final(emu)),
{
    emu.set_reg(Register::A0, 0);
    None
}

/// The `gettimeofday` syscall: answers 20 without touching the buffer

/// What the `gettimeofday` syscall does to the emulator `old`, giving `new`
pub open spec fn gettimeofday_effect(old: Emulator, new: Emulator) -> bool {
    &&& keeps_setup(old, new)
    &&& new.memory == old.memory
    &&& new.fd_list == old.fd_list
    &&& new.regs@ == ret_regs(old, 20)
}

pub fn gettimeofday(emu: &mut Emulator) -> (r: Option<Fault>)
    ensures
        r is None,
        gettimeofday_effect(*old(emu), *final(emu)),
{
    emu.set_reg(Register::A0, 20);
    None
}

/// The `close` syscall: marks an open descriptor invalid and answers 0; an unknown one -1

/// What the `close` syscall does to the emulator `old`, giving `new`
pub open spec fn close_effect(old: Emulator, new: Emulator) -> bool {
    &&& new.wf()
    &&& keeps_setup(old, new)
    &&& new.memory == old.memory
    &&& {
        let fd = old.reg(Register::A0) as int;
        if fd < old.fd_list@.len() {
            &&& new.regs@ == ret_regs(old, 0)
            &&& files_view(new.fd_list@) == files_view(old.fd_list@).update(
                fd,
                (FileType::INVALID, file_view(old.fd_list@[fd]).1, old.fd_list@[fd].cursor),
            )
        } else {
            &&& new.regs@ == ret_regs(old, usize::MAX)
            &&& new.fd_list == old.fd_list
        }
    }
}

pub fn close(emu: &mut Emulator) -> (r: Option<Fault>)
    requires
        old(emu).wf(),
    ensures
        r is None,
        close_effect(*old(emu), *final(emu)),
{
    let fd = emu.get_reg(Register::A0);
    if fd >= emu.fd_list.len() {
        emu.set_reg(Register::A0, usize::MAX);
        return None;
    }
    emu.set_file_type(fd, FileType::INVALID);
    emu.set_reg(Register::A0, 0);
    proof {
        let ghost e = *emu;
        assert(files_view(e.fd_list@).len() == e.fd_list@.len());
        assert(files_view(old(emu).fd_list@).len() == old(emu).fd_list@.len());
        assert forall|i: int| 0 <= i < e.fd_list@.len() && (#[trigger] e.fd_list@[i].ftype
            == FileType::FUZZINPUT || e.fd_list@[i].ftype == FileType::OTHER) implies e.fd_list@[i].cursor is Some by {
            assert(files_view(e.fd_list@)[i] == file_view(e.fd_list@[i]));
            if i != fd {
                assert(files_view(old(emu).fd_list@)[i] == file_view(old(emu).fd_list@[i]));
            }
        }
    }
    None
}

/// Whether `n` bytes at `addr` lie in guest memory and are all writable
pub fn is_writable(m: &Mmu, addr: usize, n: usize) -> (r: bool)
    requires
        m.wf(),
    ensures
        r == writable(*m, addr as int, n as int),
{
    let end = match addr.checked_add(n) {
        Some(e) => e,
        None => return false,
    };
    if end > m.memory.len() {
        return false;
    }
    let mut i = addr;
    while i < end
        invariant
            m.wf(),
            addr <= i <= end,
            end == addr + n,
            end <= m.memory@.len(),
            forall|j: int| addr <= j < i ==> has_perms(#[trigger] m.permissions@[j], Perms::WRITE),
        decreases end - i,
    {
        if m.permissions[i] & Perms::WRITE != Perms::WRITE {
            proof {
                lemma_first_lacking(m.permissions@, addr as int, end as int, Perms::WRITE);
            }
            return false;
        }
        i = i + 1;
    }
    proof {
        lemma_first_lacking(m.permissions@, addr as int, end as int, Perms::WRITE);
    }
    true
}

/// Where the NUL-terminated guest string at `addr` ends, if all of it up to and including the NUL
/// lies in readable memory
pub fn cstr_end(m: &Mmu, addr: usize) -> (r: Option<usize>)
    requires
        m.wf(),
    ensures
        r is Some <==> exists|n: int| cstr_at(*m, addr as int, n),
        r matches Some(n) ==> cstr_at(*m, addr as int, n as int),
{
    let len = m.memory.len();
    let mut k: usize = 0;
    if addr >= len {
        proof {
            assert forall|n: int| !cstr_at(*m, addr as int, n) by {}
        }
        return None;
    }
    while addr + k < len
        invariant
            m.wf(),
            len == m.memory@.len(),
            addr < len,
            addr + k <= len,
            forall|j: int| 0 <= j < k ==> #[trigger] m.memory@[addr + j] != 0,
            forall|j: int| 0 <= j < k ==> has_perms(#[trigger] m.permissions@[addr + j], Perms::READ),
        decreases len - (addr + k),
    {
        if m.permissions[addr + k] & Perms::READ != Perms::READ {
            proof {
                assert forall|n: int| !cstr_at(*m, addr as int, n) by {
                    if cstr_at(*m, addr as int, n) {
                        if n >= k {
                            assert(has_perms(m.permissions@[addr + k], Perms::READ));
                        } else {
                            assert(m.memory@[addr + n] != 0);
                        }
                    }
                }
            }
            return None;
        }
        if m.memory[addr + k] == 0 {
            assert(cstr_at(*m, addr as int, k as int));
            return Some(k);
        }
        k = k + 1;
    }
    proof {
        assert forall|n: int| !cstr_at(*m, addr as int, n) by {
            if cstr_at(*m, addr as int, n) {
                assert(m.memory@[addr + n] != 0);
            }
        }
    }
    None
}

/// Whether the syscall named in `a7` is supported and has a defined outcome on this emulator
pub open spec fn syscall_defined(emu: Emulator) -> bool {
    let n = emu.reg(Register::A7);
    ||| n == 57 || n == 64 || n == 93 || n == 169
    ||| n == 62 && lseek_defined(emu)
    ||| n == 63 && read_defined(emu)
    ||| n == 80 && fstat_defined(emu)
    ||| n == 214 && emu.reg(Register::A0) == 0
    ||| n == 1024 && open_defined(emu)
}

/// What the syscall named in `a7` does to the emulator `old`, giving `new`, and answers (`r`)
pub open spec fn syscall_effect(old: Emulator, new: Emulator, r: Option<Fault>) -> bool {
    let n = old.reg(Register::A7);
    if n == 93 {
        r == Some(Fault::Exit) && new == old
    } else {
        &&& r is None
        &&& n == 57 ==> close_effect(old, new)
        &&& n == 62 ==> lseek_effect(old, new)
        &&& n == 63 ==> read_effect(old, new)
        &&& n == 64 ==> write_effect(old, new)
        &&& n == 80 ==> fstat_effect(old, new)
        &&& n == 169 ==> gettimeofday_effect(old, new)
        &&& n == 214 ==> brk_effect(old, new)
        &&& n == 1024 ==> open_effect(old, new)
    }
}

/// Whether the syscall named in `a7` is supported and has a defined outcome on this emulator
pub fn syscall_supported(emu: &Emulator) -> (r: bool)
    requires
        emu.wf(),
    ensures
        r == syscall_defined(*emu),
{
    let n = emu.get_reg(Register::A7);
    let fd = emu.get_reg(Register::A0);
    let buf = emu.get_reg(Register::A1);
    let nfiles = emu.fd_list.len();
    if n == 57 || n == 64 || n == 93 || n == 169 {
        true
    } else if n == 62 {
        if fd < nfiles && emu.fd_list[fd].ftype != FileType::INVALID {
            if emu.fd_list[fd].ftype != FileType::FUZZINPUT {
                return false;
            }
            let offset = emu.get_reg(Register::A1) as i64;
            let whence = emu.get_reg(Register::A2) as i32;
            let cur = match emu.fd_list[fd].cursor {
                Some(c) => c,
                None => 0,
            };
            if whence == 1 && (cur as i64).checked_add(offset).is_none() {
                return false;
            }
            if whence == 2 && (emu.fuzz_input.len() as i64).checked_add(offset).is_none() {
                return false;
            }
        }
        true
    } else if n == 63 {
        if fd < nfiles && emu.fd_list[fd].ftype == FileType::FUZZINPUT {
            let off = match emu.fd_list[fd].cursor {
                Some(c) => c,
                None => 0,
            };
            if off > emu.fuzz_input.len() {
                return false;
            }
            let count = emu.get_reg(Register::A2);
            let rest = emu.fuzz_input.len() - off;
            let len = if count <= rest { count } else { rest };
            return is_writable(&emu.memory, buf, len);
        }
        true
    } else if n == 80 {
        if fd < nfiles {
            if emu.fd_list[fd].ftype == FileType::OTHER {
                return false;
            }
            if emu.fd_list[fd].ftype == FileType::FUZZINPUT {
                return is_writable(&emu.memory, buf, 128) && (emu.fuzz_input.len() as u64) <= 0x7fff_ffff_ffff_fe00u64;
            }
        }
        true
    } else if n == 214 {
        fd == 0
    } else if n == 1024 {
        cstr_end(&emu.memory, fd).is_some()
    } else {
        false
    }
}

/// Perform the syscall named in `a7`
pub fn syscall(emu: &mut Emulator) -> (r: Option<Fault>)
    requires
        old(emu).wf(),
        syscall_defined(*old(emu)),
    ensures
        final(emu).wf(),
        syscall_effect(*old(emu), *final(emu), r),
{
    match emu.get_reg(Register::A7) {
        57 => close(emu),
        62 => lseek(emu),
        63 => read(emu),
        64 => write(emu),
        80 => fstat(emu),
        93 => exit(),
        169 => gettimeofday(emu),
        214 => brk(emu),
        _ => open(emu),
    }
}

/// Every fuzz-input file has its cursor within the fuzz input
pub open spec fn cursors_in_input(emu: Emulator) -> bool {
    forall|i: int|
        0 <= i < emu.fd_list@.len() && #[trigger] emu.fd_list@[i].ftype == FileType::FUZZINPUT
            ==> (emu.fd_list@[i].cursor matches Some(c) && c <= emu.fuzz_input@.len())
}

/// The file syscalls keep every fuzz-input cursor within the fuzz input: `lseek` clamps the new
/// position to the input, `read` moves the cursor by what it delivered, `open` starts at 0 and
/// `close` only retires a file.
pub proof fn lemma_cursors_stay_in_input(old: Emulator, new: Emulator)
    requires
        old.wf(),
        cursors_in_input(old),
        old.fuzz_input@.len() <= i64::MAX,
        (lseek_defined(old) && lseek_effect(old, new)) || (read_defined(old) && read_effect(old, new))
            || open_effect(old, new) || close_effect(old, new) || write_effect(old, new) || fstat_effect(old, new),
    ensures
        cursors_in_input(new),
{
    let ov = files_view(old.fd_list@);
    let nv = files_view(new.fd_list@);
    let fd = old.reg(Register::A0) as int;
    let len = old.fuzz_input@.len();
    assert(ov.len() == old.fd_list@.len());
    assert(nv.len() == new.fd_list@.len());
    assert forall|i: int| 0 <= i < old.fd_list@.len() && #[trigger] ov[i].0 == FileType::FUZZINPUT implies (ov[i].2 matches Some(c) && c <= len) by {
        assert(ov[i] == file_view(old.fd_list@[i]));
    }
    if write_effect(old, new) || fstat_effect(old, new) {
        assert(new.fd_list@ == old.fd_list@);
    } else if open_effect(old, new) {
        assert forall|i: int| 0 <= i < new.fd_list@.len() && #[trigger] new.fd_list@[i].ftype == FileType::FUZZINPUT implies (new.fd_list@[i].cursor matches Some(c)
            && c <= new.fuzz_input@.len()) by {
            assert(nv[i] == file_view(new.fd_list@[i]));
            if i < old.fd_list@.len() {
                assert(nv[i] == ov[i]);
            }
        }
    } else if close_effect(old, new) {
        assert forall|i: int| 0 <= i < new.fd_list@.len() && #[trigger] new.fd_list@[i].ftype == FileType::FUZZINPUT implies (new.fd_list@[i].cursor matches Some(c)
            && c <= new.fuzz_input@.len()) by {
            assert(nv[i] == file_view(new.fd_list@[i]));
        }
    } else if lseek_defined(old) && lseek_effect(old, new) {
        assert forall|i: int| 0 <= i < new.fd_list@.len() && #[trigger] new.fd_list@[i].ftype == FileType::FUZZINPUT implies (new.fd_list@[i].cursor matches Some(c)
            && c <= new.fuzz_input@.len()) by {
            assert(nv[i] == file_view(new.fd_list@[i]));
            if fd < old.fd_list@.len() && old.fd_list@[fd].ftype != FileType::INVALID {
                assert(ov[fd] == file_view(old.fd_list@[fd]));
                assert(old.fd_list@[fd].ftype == FileType::FUZZINPUT);
                let cur = old.fd_list@[fd].cursor.unwrap();
                if i == fd {
                    if let Some(p) = lseek_pos(old, cur) {
                        assert(p <= len);
                    }
                } else {
                    assert(nv[i] == ov[i]);
                }
            } else {
                assert(nv == ov);
                assert(nv[i] == ov[i]);
            }
        }
    } else {
        assert(read_defined(old) && read_effect(old, new));
        assert forall|i: int| 0 <= i < new.fd_list@.len() && #[trigger] new.fd_list@[i].ftype == FileType::FUZZINPUT implies (new.fd_list@[i].cursor matches Some(c)
            && c <= new.fuzz_input@.len()) by {
            assert(nv[i] == file_view(new.fd_list@[i]));
            if fd < old.fd_list@.len() && old.fd_list@[fd].ftype == FileType::FUZZINPUT {
                assert(ov[fd] == file_view(old.fd_list@[fd]));
                let off = old.fd_list@[fd].cursor.unwrap();
                assert(off <= len);
                assert(read_len(old, off) <= len - off);
                if i != fd {
                    assert(nv[i] == ov[i]);
                }
            } else {
                assert(nv == ov);
                assert(nv[i] == ov[i]);
            }
        }
    }
}

} // verus!
