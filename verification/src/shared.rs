use vstd::prelude::*;

verus! {

/// Size of the code buffer that compiled blocks are written into
pub const JIT_BACKING_SIZE: usize = 16 * 1024 * 1024;

/// `<[u8]>::as_ptr` of std: where the bytes of the buffer lie in the host's memory. The address
/// depends on the allocator, so nothing is stated of it.
#[verifier::external_body]
fn buffer_address(buf: &Vec<u8>) -> usize {
    buf.as_ptr() as usize
}

/// The code cache that the threads share: a buffer of compiled code that only grows, and a table
/// that maps guest addresses to the host addresses of their code
#[derive(Debug)]
pub struct Shared {
    /// The code buffer, and how many of its bytes are in use
    pub jit: (Vec<u8>, usize),

    /// Host address of the first byte of the code buffer
    pub base: usize,

    /// Host address of the code compiled for each guest address
    pub lookup: Vec<usize>,
}

/// `new` is `old` after `add_jitblock(code, pc)` answered `r`: the code lands after the bytes in
/// use, at host address `r`, and `pc` maps to it
pub open spec fn block_added(old: Shared, new: Shared, code: Seq<u8>, pc: usize, r: usize) -> bool {
    &&& r == old.base + old.jit.1
    &&& new.jit.0@ == old.jit.0@.subrange(0, old.jit.1 as int) + code + old.jit.0@.subrange(
        old.jit.1 + code.len(),
        old.jit.0@.len() as int,
    )
    &&& new.jit.1 == old.jit.1 + code.len()
    &&& new.lookup@ == old.lookup@.update(pc as int, r)
    &&& new.base == old.base
}

/// Compiled code stays where it was put: a block added later goes right after it, leaves its
/// bytes alone, and leaves its mapping alone unless it is for the same guest address.
pub proof fn lemma_blocks_stay(
    s0: Shared,
    s1: Shared,
    s2: Shared,
    c1: Seq<u8>,
    c2: Seq<u8>,
    p1: usize,
    p2: usize,
    r1: usize,
    r2: usize,
)
    requires
        s0.wf(),
        s0.jit.1 + c1.len() + c2.len() <= s0.jit.0@.len(),
        p1 < s0.lookup@.len(),
        p2 < s0.lookup@.len(),
        block_added(s0, s1, c1, p1, r1),
        block_added(s1, s2, c2, p2, r2),
    ensures
        r2 == r1 + c1.len(),
        s2.jit.0@.subrange(s0.jit.1 as int, s0.jit.1 + c1.len()) == c1,
        s2.jit.0@.subrange(s1.jit.1 as int, s1.jit.1 + c2.len()) == c2,
        p1 != p2 ==> s2.lookup@[p1 as int] == r1,
        s2.lookup@[p2 as int] == r2,
{
    assert(s2.jit.0@.subrange(s0.jit.1 as int, s0.jit.1 + c1.len()) =~= c1);
    assert(s2.jit.0@.subrange(s1.jit.1 as int, s1.jit.1 + c2.len()) =~= c2);
}

impl Shared {
    /// Well-formedness: the bytes in use lie within the buffer
    pub open spec fn wf(&self) -> bool {
        self.jit.1 <= self.jit.0@.len()
    }

    /// Create a new code cache with an empty buffer of code and an empty address table, which
    /// can grow up to a quarter of the guest's address space
    pub fn new(address_space_size: usize) -> (r: Self)
        ensures
            r.wf(),
            r.jit.0@ == Seq::new(JIT_BACKING_SIZE as nat, |i: int| 0u8),
            r.jit.1 == 0,
            r.lookup@ == Seq::<usize>::empty(),
    {
        let backing = vec![0u8; JIT_BACKING_SIZE];
        let base = buffer_address(&backing);
        assert(backing@ =~= Seq::new(JIT_BACKING_SIZE as nat, |i: int| 0u8));
        Shared { jit: (backing, 0), base, lookup: Vec::with_capacity(address_space_size / 4) }
    }

    /// Append a block of compiled code to the buffer, map the guest address `pc` to it, and
    /// return its host address
    pub fn add_jitblock(&mut self, code: &[u8], pc: usize) -> (r: usize)
        requires
            old(self).wf(),
            old(self).jit.1 + code@.len() <= old(self).jit.0@.len(),
            old(self).base + old(self).jit.1 <= usize::MAX,
            pc < old(self).lookup@.len(),
        ensures
            final(self).wf(),
            block_added(*old(self), *final(self), code@, pc, r),
    {
        let jit_inuse = self.jit.1;
        let blen = self.jit.0.len();
        let mut i: usize = 0;
        while i < code.len()
            invariant
                jit_inuse == old(self).jit.1,
                blen == old(self).jit.0@.len(),
                jit_inuse + code@.len() <= old(self).jit.0@.len(),
                i <= code@.len(),
                self.jit.0@.len() == old(self).jit.0@.len(),
                forall|k: int| 0 <= k < jit_inuse ==> self.jit.0@[k] == old(self).jit.0@[k],
                forall|k: int| 0 <= k < i ==> self.jit.0@[jit_inuse + k] == code@[k],
                forall|k: int| jit_inuse + code@.len() <= k < self.jit.0@.len() ==> self.jit.0@[k] == old(self).jit.0@[k],
                self.jit.1 == old(self).jit.1,
                self.lookup == old(self).lookup,
                self.base == old(self).base,
            decreases code@.len() - i,
        {
            self.jit.0.set(jit_inuse + i, code[i]);
            i = i + 1;
        }
        let addr = self.base + jit_inuse;

        // add mapping
        self.lookup.set(pc, addr);

        self.jit.1 = jit_inuse + code.len();
        assert(self.jit.0@ =~= old(self).jit.0@.subrange(0, old(self).jit.1 as int) + code@
            + old(self).jit.0@.subrange(old(self).jit.1 + code@.len(), old(self).jit.0@.len() as int));

        // Return the JIT address of the code we just compiled
        addr
    }

    /// The host address of the code compiled for the guest address `pc`
    pub fn lookup(&self, pc: usize) -> (r: usize)
        requires
            pc < self.lookup@.len(),
        ensures
            r == self.lookup@[pc as int],
    {
        self.lookup[pc]
    }
}

} // verus!
