use vstd::prelude::*;

use std::collections::HashMap;

use crate::emulator::{Emulator, Fault, Register};
use crate::jit::LibFuncs;
use crate::mmu::{Perms, alloc_post, free_defined, free_post};

verus! {

broadcast use vstd::std_specs::hash::group_hash_axioms;

/// The guest returns from a hooked call: the program counter takes the return address
pub open spec fn returns_to_caller(old: Emulator, new: Emulator, regs: Seq<usize>) -> bool {
    new.regs@ == regs.update(Register::Pc.id(), old.reg(Register::Ra))
}

/// Serves the guest's `malloc` (`_malloc_r`) from the memory unit's allocator: a fresh readable
/// and writable chunk of `a1` bytes, whose address is returned in `a0`; without room, the case
/// ends with an out-of-memory fault
pub fn malloc_hook(emu: &mut Emulator) -> (r: Result<(), Fault>)
    requires
        old(emu).wf(),
        old(emu).reg(Register::A1) + 0x18 <= usize::MAX,
    ensures
        final(emu).wf(),
        final(emu).fd_list == old(emu).fd_list,
        final(emu).fuzz_input == old(emu).fuzz_input,
        alloc_post(
            old(emu).memory,
            old(emu).reg(Register::A1) as int,
            Perms::READ | Perms::WRITE,
            if r is Ok { Some(final(emu).reg(Register::A0)) } else { None },
            final(emu).memory,
        ),
        r is Ok ==> returns_to_caller(
            *old(emu),
            *final(emu),
            old(emu).regs@.update(Register::A0.id(), final(emu).reg(Register::A0)),
        ),
        r is Err ==> r == Err::<(), Fault>(Fault::OOM) && final(emu).regs == old(emu).regs,
{
    let alloc_size = emu.get_reg(Register::A1);
    if let Some(addr) = emu.memory.allocate(alloc_size, Perms::READ | Perms::WRITE) {
        emu.set_reg(Register::A0, addr);
        let ra = emu.get_reg(Register::Ra);
        emu.set_reg(Register::Pc, ra);
        Ok(())
    } else {
        Err(Fault::OOM)
    }
}

/// Serves the guest's `calloc` (`_calloc_r`) like `malloc`, for `a1` elements of `a2` bytes
pub fn calloc_hook(emu: &mut Emulator) -> (r: Result<(), Fault>)
    requires
        old(emu).wf(),
        old(emu).reg(Register::A1) * old(emu).reg(Register::A2) + 0x18 <= usize::MAX,
    ensures
        final(emu).wf(),
        final(emu).fd_list == old(emu).fd_list,
        final(emu).fuzz_input == old(emu).fuzz_input,
        alloc_post(
            old(emu).memory,
            old(emu).reg(Register::A1) * old(emu).reg(Register::A2),
            Perms::READ | Perms::WRITE,
            if r is Ok { Some(final(emu).reg(Register::A0)) } else { None },
            final(emu).memory,
        ),
        r is Ok ==> returns_to_caller(
            *old(emu),
            *final(emu),
            old(emu).regs@.update(Register::A0.id(), final(emu).reg(Register::A0)),
        ),
        r is Err ==> r == Err::<(), Fault>(Fault::OOM) && final(emu).regs == old(emu).regs,
{
    let nmemb = emu.get_reg(Register::A1);
    let size = emu.get_reg(Register::A2);
    assert(size * nmemb == nmemb * size && size * nmemb <= usize::MAX) by (nonlinear_arith)
        requires
            nmemb * size + 0x18 <= usize::MAX,
            0 <= nmemb,
            0 <= size,
    ;
    let alloc_size = size * nmemb;
    if let Some(addr) = emu.memory.allocate(alloc_size, Perms::READ | Perms::WRITE) {
        emu.set_reg(Register::A0, addr);
        let ra = emu.get_reg(Register::Ra);
        emu.set_reg(Register::Pc, ra);
        Ok(())
    } else {
        Err(Fault::OOM)
    }
}

/// Serves the guest's `free` (`_free_r`) with the memory unit's checked free of the chunk at `a1`;
/// an invalid or double free ends the case with its fault
pub fn free_hook(emu: &mut Emulator) -> (r: Result<(), Fault>)
    requires
        old(emu).wf(),
        free_defined(old(emu).memory, old(emu).reg(Register::A1) as int),
    ensures
        final(emu).wf(),
        final(emu).fd_list == old(emu).fd_list,
        final(emu).fuzz_input == old(emu).fuzz_input,
        free_post(old(emu).memory, old(emu).reg(Register::A1) as int, r, final(emu).memory),
        r is Ok ==> returns_to_caller(*old(emu), *final(emu), old(emu).regs@),
        r is Err ==> final(emu).regs == old(emu).regs,
{
    let ptr = emu.get_reg(Register::A1);
    let f = emu.memory.free(ptr);
    if f.is_err() {
        return f;
    }
    let ra = emu.get_reg(Register::Ra);
    emu.set_reg(Register::Pc, ra);
    Ok(())
}


/// The address of the last symbol named `name` in `syms`: the one that a map built from the list
/// in order keeps
pub open spec fn symbol_addr(syms: Seq<(String, usize)>, name: Seq<char>) -> Option<usize>
    decreases syms.len(),
{
    if syms.len() == 0 {
        None
    } else if syms.last().0@ == name {
        Some(syms.last().1)
    } else {
        symbol_addr(syms.drop_last(), name)
    }
}

/// The address of the symbol `name` among `syms`; where the name occurs more than once, the
/// last occurrence counts
pub fn find_symbol(syms: &Vec<(String, usize)>, name: &str) -> (r: Option<usize>)
    ensures
        r == symbol_addr(syms@, name@),
{
    let target = name.to_owned();
    let mut i = syms.len();
    assert(syms@.take(i as int) =~= syms@);
    while i > 0
        invariant
            i <= syms@.len(),
            target@ == name@,
            symbol_addr(syms@, name@) == symbol_addr(syms@.take(i as int), name@),
        decreases i,
    {
        let ghost pre = syms@.take(i as int);
        assert(pre.drop_last() =~= syms@.take(i - 1));
        assert(pre.last() == syms@[i - 1]);
        i = i - 1;
        if syms[i].0 == target {
            return Some(syms[i].1);
        }
    }
    None
}

/// Where the hooked allocator functions and the replaced library functions lie in the target,
/// for each that the target defines
#[derive(Debug, Clone, Copy, PartialEq, Eq)]
pub struct HookSites {
    /// `_free_r`, served by `free_hook`
    pub free: Option<usize>,
    /// `_malloc_r`, served by `malloc_hook`
    pub malloc: Option<usize>,
    /// `_calloc_r`, served by `calloc_hook`
    pub calloc: Option<usize>,
    /// `strlen`, replaced by a version that stays inside its string
    pub strlen: Option<usize>,
    /// `strcmp`, replaced by a version that stays inside its strings
    pub strcmp: Option<usize>,
}

/// Find the functions to hook or replace among the target's symbols. The default `strlen` and
/// `strcmp` read past the end of their strings in aligned words, which byte-level permissions
/// report, so they are replaced.
pub fn hook_sites(syms: &Vec<(String, usize)>) -> (r: HookSites)
    ensures
        r.free == symbol_addr(syms@, "_free_r"@),
        r.malloc == symbol_addr(syms@, "_malloc_r"@),
        r.calloc == symbol_addr(syms@, "_calloc_r"@),
        r.strlen == symbol_addr(syms@, "strlen"@),
        r.strcmp == symbol_addr(syms@, "strcmp"@),
{
    HookSites {
        free: find_symbol(syms, "_free_r"),
        malloc: find_symbol(syms, "_malloc_r"),
        calloc: find_symbol(syms, "_calloc_r"),
        strlen: find_symbol(syms, "strlen"),
        strcmp: find_symbol(syms, "strcmp"),
    }
}

/// `m` with `addr` mapped to `f`, where there is an address
pub open spec fn with_lib(m: Map<usize, LibFuncs>, addr: Option<usize>, f: LibFuncs) -> Map<usize, LibFuncs> {
    match addr {
        Some(a) => m.insert(a, f),
        None => m,
    }
}

/// Route calls of the target's `strlen` and `strcmp`, where it has them, to the replacement
/// code; the `strcmp` entry is made last
pub fn replace_lib_functions(custom_lib: &mut HashMap<usize, LibFuncs>, sites: &HookSites)
    ensures
        final(custom_lib)@ == with_lib(
            with_lib(old(custom_lib)@, sites.strlen, LibFuncs::STRLEN),
            sites.strcmp,
            LibFuncs::STRCMP,
        ),
{
    if let Some(a) = sites.strlen {
        custom_lib.insert(a, LibFuncs::STRLEN);
    }
    if let Some(a) = sites.strcmp {
        custom_lib.insert(a, LibFuncs::STRCMP);
    }
}

} // verus!
