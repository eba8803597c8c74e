use vstd::prelude::*;
use vstd::bytes::*;
use vstd::slice::slice_subrange;
use vstd::arithmetic::div_mod::lemma_div_is_ordered;

use crate::elfparser::ProgramHeader;
use crate::emulator::Fault;

verus! {

/// Granularity at which writes are tracked for snapshot resets
pub const PAGE_SIZE: usize = 4096;

/// The address of the size field of the first heap chunk; chunks start 8 bytes above it
pub const FIRSTALLOCATION: usize = 0x5fff8;

/// Used in this manner, the permissions can easily be used for bitflag permission checks
#[non_exhaustive]
#[derive(Debug, Clone, Copy)]
pub struct Perms;

impl Perms {
    pub const UNSET: u8 = 0;
    pub const EXECUTE: u8 = 0x1;
    pub const WRITE: u8 = 0x2;
    pub const READ: u8 = 0x4;
    pub const ISALLOC: u8 = 0x8;
}

// ------------------------------------------------------------------------------------------------
// Mathematical model of guest memory
// ------------------------------------------------------------------------------------------------

/// A permission byte `perm` grants every bit of `control`.
pub open spec fn has_perms(perm: u8, control: u8) -> bool {
    perm & control == control
}

/// Some byte in `lo..hi` lacks one of the bits of `p`.
pub open spec fn lacks_in(perms: Seq<u8>, lo: int, hi: int, p: u8) -> bool {
    exists|i: int| lo <= i < hi && !has_perms(#[trigger] perms[i], p)
}

/// The lowest index in `lo..hi` whose permission byte lacks one of the bits of `p`.
pub open spec fn first_lacking(perms: Seq<u8>, lo: int, hi: int, p: u8) -> Option<int>
    decreases hi - lo,
{
    if lo >= hi {
        None
    } else if !has_perms(perms[lo], p) {
        Some(lo)
    } else {
        first_lacking(perms, lo + 1, hi, p)
    }
}

/// The fault that a refused access of the given kind reports for byte `i`.
pub open spec fn fault_at(is_write: bool, i: int) -> Fault {
    if is_write {
        Fault::WriteFault(i as usize)
    } else {
        Fault::ReadFault(i as usize)
    }
}

/// What an access of `size` bytes at `addr`, with a caller buffer of `buf_len` bytes, answers:
/// a buffer that is too small, an address range that wraps around, the first byte without the
/// requested permissions, or success.
pub open spec fn access_outcome(
    perms: Seq<u8>,
    addr: int,
    buf_len: int,
    size: int,
    p: u8,
    is_write: bool,
) -> Result<(), Fault> {
    if size > buf_len {
        Err(fault_at(is_write, buf_len))
    } else if addr + size > usize::MAX {
        Err(Fault::IntegerOverflow)
    } else {
        match first_lacking(perms, addr, addr + size, p) {
            Some(i) => Err(fault_at(is_write, i)),
            None => Ok(()),
        }
    }
}

/// The smaller of `a` and `b`.
pub open spec fn min_int(a: int, b: int) -> int {
    if a <= b {
        a
    } else {
        b
    }
}

/// A write of `size` bytes at `addr` stays inside guest memory, or is refused before it leaves it.
pub open spec fn write_defined(len: int, perms: Seq<u8>, addr: int, buf_len: int, size: int) -> bool {
    ||| size > buf_len
    ||| addr + size > usize::MAX
    ||| addr + size <= len
    ||| lacks_in(perms, addr, len, Perms::WRITE)
}

/// A read of `size` bytes at `addr` into a buffer of `buf_len` bytes stays inside guest memory,
/// or is refused before that matters.
pub open spec fn read_defined(
    len: int,
    perms: Seq<u8>,
    addr: int,
    buf_len: int,
    size: int,
    p: u8,
) -> bool {
    ||| size > buf_len
    ||| addr + size > usize::MAX
    ||| lacks_in(perms, addr, min_int(addr + size, len), p)
    ||| addr + size <= len
}

/// `s` with the bytes of `d` placed at index `at`.
pub open spec fn splice(s: Seq<u8>, at: int, d: Seq<u8>) -> Seq<u8> {
    Seq::new(s.len(), |i: int| if at <= i < at + d.len() { d[i - at] } else { s[i] })
}

/// `s` with every byte in `lo..hi` set to `v`.
pub open spec fn fill(s: Seq<u8>, lo: int, hi: int, v: u8) -> Seq<u8> {
    Seq::new(s.len(), |i: int| if lo <= i < hi { v } else { s[i] })
}

/// The bitmap has the bit of page `b` set.
pub open spec fn page_marked(bitmap: Seq<u64>, b: int) -> bool {
    (bitmap[b / 64] >> ((b % 64) as u64)) & 1u64 == 1u64
}

/// Byte `i` lies in a page of the dirty list.
pub open spec fn in_dirty_page(dirty: Seq<usize>, i: int) -> bool {
    dirty.contains((i / 4096) as usize)
}

/// The dirty list grew from `old_dirty` to `new_dirty` by appending, in increasing order, the
/// pages in `lo..hi` that it did not already hold.
pub open spec fn marks_pages(old_dirty: Seq<usize>, new_dirty: Seq<usize>, lo: int, hi: int) -> bool {
    &&& old_dirty.len() <= new_dirty.len()
    &&& new_dirty.subrange(0, old_dirty.len() as int) == old_dirty
    &&& forall|b: usize| new_dirty.contains(b) <==> (old_dirty.contains(b) || (lo <= b < hi))
    &&& forall|p: int, q: int|
        old_dirty.len() <= p < q < new_dirty.len() ==> new_dirty[p] < new_dirty[q]
}

/// The bitmap gained exactly the bits of the pages in `lo..hi`.
pub open spec fn bitmap_marks(old_bm: Seq<u64>, new_bm: Seq<u64>, lo: int, hi: int) -> bool {
    &&& new_bm.len() == old_bm.len()
    &&& forall|b: int|
        0 <= b < 64 * old_bm.len() ==> (page_marked(new_bm, b) <==> (page_marked(old_bm, b) || (
        lo <= b < hi)))
}

// ------------------------------------------------------------------------------------------------
// Lemmas on the model
// ------------------------------------------------------------------------------------------------

/// The first byte without the permissions is the first one of the range that lacks them; if there
/// is none, every byte of the range has them.
pub proof fn lemma_first_lacking(perms: Seq<u8>, lo: int, hi: int, p: u8)
    ensures
        match first_lacking(perms, lo, hi, p) {
            Some(i) => lo <= i < hi && !has_perms(perms[i], p) && forall|j: int|
                lo <= j < i ==> has_perms(#[trigger] perms[j], p),
            None => forall|j: int| lo <= j < hi ==> has_perms(#[trigger] perms[j], p),
        },
    decreases hi - lo,
{
    if lo < hi {
        lemma_first_lacking(perms, lo + 1, hi, p);
    }
}

proof fn lemma_first_lacking_extend(perms: Seq<u8>, lo: int, hi: int, p: u8)
    requires
        lo <= hi,
    ensures
        first_lacking(perms, lo, hi + 1, p) == match first_lacking(perms, lo, hi, p) {
            Some(i) => Some(i),
            None => if has_perms(perms[hi], p) {
                None
            } else {
                Some(hi)
            },
        },
    decreases hi - lo,
{
    if lo < hi {
        lemma_first_lacking_extend(perms, lo + 1, hi, p);
    } else {
        reveal_with_fuel(first_lacking, 2);
    }
}

/// The first lacking byte of a range does not depend on bytes past it.
proof fn lemma_first_lacking_cut(perms: Seq<u8>, lo: int, mid: int, hi: int, p: u8)
    requires
        lo <= mid <= hi,
        lacks_in(perms, lo, mid, p),
    ensures
        first_lacking(perms, lo, hi, p) == first_lacking(perms, lo, mid, p),
        first_lacking(perms, lo, mid, p) is Some,
    decreases mid - lo,
{
    let w = choose|i: int| lo <= i < mid && !has_perms(#[trigger] perms[i], p);
    if has_perms(perms[lo], p) {
        assert(lacks_in(perms, lo + 1, mid, p)) by {
            assert(lo + 1 <= w < mid && !has_perms(perms[w], p));
        }
        lemma_first_lacking_cut(perms, lo + 1, mid, hi, p);
    }
}

proof fn lemma_lacks_when_first(perms: Seq<u8>, lo: int, hi: int, p: u8)
    requires
        first_lacking(perms, lo, hi, p) is Some,
    ensures
        lacks_in(perms, lo, hi, p),
{
    lemma_first_lacking(perms, lo, hi, p);
    let i = first_lacking(perms, lo, hi, p)->0;
    assert(lo <= i < hi && !has_perms(perms[i], p));
}

proof fn lemma_bit_set(w: u64, bit: u64, c: u64)
    requires
        bit < 64,
        c < 64,
    ensures
        ((w | (1u64 << bit)) >> c) & 1u64 == (if c == bit {
            1u64
        } else {
            (w >> c) & 1u64
        }),
        (w & (1u64 << bit) == 0u64) <==> ((w >> bit) & 1u64 == 0u64),
        (w >> c) & 1u64 == 0u64 || (w >> c) & 1u64 == 1u64,
{
    assert(((w | (1u64 << bit)) >> c) & 1u64 == (if c == bit {
        1u64
    } else {
        (w >> c) & 1u64
    })) by (bit_vector)
        requires
            bit < 64,
            c < 64,
    ;
    assert((w & (1u64 << bit) == 0u64) <==> ((w >> bit) & 1u64 == 0u64)) by (bit_vector)
        requires
            bit < 64,
    ;
    assert((w >> c) & 1u64 == 0u64 || (w >> c) & 1u64 == 1u64) by (bit_vector);
}

proof fn lemma_zero_word(c: u64)
    ensures
        (0u64 >> c) & 1u64 == 0u64,
{
    assert((0u64 >> c) & 1u64 == 0u64) by (bit_vector);
}

/// Two pages that share a bitmap word and a bit are the same page.
proof fn lemma_same_slot(a: int, b: int)
    requires
        0 <= a,
        0 <= b,
        a / 64 == b / 64,
        a % 64 == b % 64,
    ensures
        a == b,
{
}

proof fn lemma_page_bound(b: int, len: int)
    requires
        0 <= b <= len / 4096,
        0 <= len,
    ensures
        b / 64 < len / 4096 / 64 + 1,
{
}

// ------------------------------------------------------------------------------------------------
// Byte conversions
// ------------------------------------------------------------------------------------------------

/// Types that can be stored in and loaded from guest memory, in little-endian byte order (the
/// byte order of RISC-V and of the x86_64 host).
pub trait ByteConversions: Sized {
    /// Number of bytes that a value occupies in memory
    spec fn byte_size() -> nat;

    /// The value that a run of `byte_size()` bytes encodes
    spec fn spec_from_bytes(bytes: Seq<u8>) -> Self;

    /// The bytes that encode a value
    spec fn spec_to_bytes(self) -> Seq<u8>;

    /// Number of bytes that a value occupies in memory
    fn size_in_bytes() -> (n: usize)
        ensures
            n == Self::byte_size(),
    ;

    /// Store the value into `dst`, which has exactly the size of the value
    fn write_to(self, dst: &mut [u8])
        requires
            old(dst)@.len() == Self::byte_size(),
        ensures
            final(dst)@ == self.spec_to_bytes(),
    ;

    /// Load a value from `src`, which has exactly the size of the value
    fn read_from(src: &[u8]) -> (r: Self)
        requires
            src@.len() == Self::byte_size(),
        ensures
            r == Self::spec_from_bytes(src@),
    ;

    /// Loading the bytes of a stored value gives the value back.
    proof fn lemma_round_trip(x: Self)
        ensures
            x.spec_to_bytes().len() == Self::byte_size(),
            Self::spec_from_bytes(x.spec_to_bytes()) == x,
    ;
}

/// Copy `src` into `dst` (both of the same length).
fn copy_bytes(dst: &mut [u8], src: &[u8])
    requires
        src@.len() <= old(dst)@.len(),
    ensures
        final(dst)@ == src@ + old(dst)@.subrange(src@.len() as int, old(dst)@.len() as int),
{
    let n = src.len();
    let mut i: usize = 0;
    while i < n
        invariant
            n == src@.len(),
            n <= old(dst)@.len(),
            dst@.len() == old(dst)@.len(),
            i <= n,
            forall|j: int| 0 <= j < i ==> dst@[j] == src@[j],
            forall|j: int| n <= j < dst@.len() ==> dst@[j] == old(dst)@[j],
        decreases n - i,
    {
        dst[i] = src[i];
        i = i + 1;
    }
    assert(dst@ =~= src@ + old(dst)@.subrange(src@.len() as int, old(dst)@.len() as int));
}

impl ByteConversions for u8 {
    open spec fn byte_size() -> nat {
        1
    }

    open spec fn spec_from_bytes(bytes: Seq<u8>) -> Self {
        bytes[0]
    }

    open spec fn spec_to_bytes(self) -> Seq<u8> {
        seq![self]
    }

    fn size_in_bytes() -> (n: usize) {
        1
    }

    fn write_to(self, dst: &mut [u8]) {
        dst[0] = self;
        assert(dst@ =~= seq![self]);
    }

    fn read_from(src: &[u8]) -> (r: Self) {
        src[0]
    }

    proof fn lemma_round_trip(x: Self) {
    }
}

impl ByteConversions for i8 {
    open spec fn byte_size() -> nat {
        1
    }

    open spec fn spec_from_bytes(bytes: Seq<u8>) -> Self {
        bytes[0] as i8
    }

    open spec fn spec_to_bytes(self) -> Seq<u8> {
        seq![self as u8]
    }

    fn size_in_bytes() -> (n: usize) {
        1
    }

    fn write_to(self, dst: &mut [u8]) {
        dst[0] = self as u8;
        assert(dst@ =~= seq![self as u8]);
    }

    fn read_from(src: &[u8]) -> (r: Self) {
        src[0] as i8
    }

    proof fn lemma_round_trip(x: Self) {
        assert((x as u8) as i8 == x) by (bit_vector);
    }
}

impl ByteConversions for u16 {
    open spec fn byte_size() -> nat {
        2
    }

    open spec fn spec_from_bytes(bytes: Seq<u8>) -> Self {
        spec_u16_from_le_bytes(bytes)
    }

    open spec fn spec_to_bytes(self) -> Seq<u8> {
        spec_u16_to_le_bytes(self)
    }

    fn size_in_bytes() -> (n: usize) {
        2
    }

    fn write_to(self, dst: &mut [u8]) {
        proof {
            lemma_auto_spec_u16_to_from_le_bytes();
        }
        let b = u16_to_le_bytes(self);
        copy_bytes(dst, b.as_slice());
    }

    fn read_from(src: &[u8]) -> (r: Self) {
        u16_from_le_bytes(src)
    }

    proof fn lemma_round_trip(x: Self) {
        lemma_auto_spec_u16_to_from_le_bytes();
        assert(spec_u16_to_le_bytes(x).len() == Self::byte_size());
    }
}

impl ByteConversions for i16 {
    open spec fn byte_size() -> nat {
        2
    }

    open spec fn spec_from_bytes(bytes: Seq<u8>) -> Self {
        spec_u16_from_le_bytes(bytes) as i16
    }

    open spec fn spec_to_bytes(self) -> Seq<u8> {
        spec_u16_to_le_bytes(self as u16)
    }

    fn size_in_bytes() -> (n: usize) {
        2
    }

    fn write_to(self, dst: &mut [u8]) {
        proof {
            lemma_auto_spec_u16_to_from_le_bytes();
        }
        let b = u16_to_le_bytes(self as u16);
        copy_bytes(dst, b.as_slice());
    }

    fn read_from(src: &[u8]) -> (r: Self) {
        u16_from_le_bytes(src) as i16
    }

    proof fn lemma_round_trip(x: Self) {
        lemma_auto_spec_u16_to_from_le_bytes();
        assert(spec_u16_to_le_bytes(x as u16).len() == Self::byte_size());
        assert((x as u16) as i16 == x) by (bit_vector);
    }
}

impl ByteConversions for u32 {
    open spec fn byte_size() -> nat {
        4
    }

    open spec fn spec_from_bytes(bytes: Seq<u8>) -> Self {
        spec_u32_from_le_bytes(bytes)
    }

    open spec fn spec_to_bytes(self) -> Seq<u8> {
        spec_u32_to_le_bytes(self)
    }

    fn size_in_bytes() -> (n: usize) {
        4
    }

    fn write_to(self, dst: &mut [u8]) {
        proof {
            lemma_auto_spec_u32_to_from_le_bytes();
        }
        let b = u32_to_le_bytes(self);
        copy_bytes(dst, b.as_slice());
    }

    fn read_from(src: &[u8]) -> (r: Self) {
        u32_from_le_bytes(src)
    }

    proof fn lemma_round_trip(x: Self) {
        lemma_auto_spec_u32_to_from_le_bytes();
        assert(spec_u32_to_le_bytes(x).len() == Self::byte_size());
    }
}

impl ByteConversions for i32 {
    open spec fn byte_size() -> nat {
        4
    }

    open spec fn spec_from_bytes(bytes: Seq<u8>) -> Self {
        spec_u32_from_le_bytes(bytes) as i32
    }

    open spec fn spec_to_bytes(self) -> Seq<u8> {
        spec_u32_to_le_bytes(self as u32)
    }

    fn size_in_bytes() -> (n: usize) {
        4
    }

    fn write_to(self, dst: &mut [u8]) {
        proof {
            lemma_auto_spec_u32_to_from_le_bytes();
        }
        let b = u32_to_le_bytes(self as u32);
        copy_bytes(dst, b.as_slice());
    }

    fn read_from(src: &[u8]) -> (r: Self) {
        u32_from_le_bytes(src) as i32
    }

    proof fn lemma_round_trip(x: Self) {
        lemma_auto_spec_u32_to_from_le_bytes();
        assert(spec_u32_to_le_bytes(x as u32).len() == Self::byte_size());
        assert((x as u32) as i32 == x) by (bit_vector);
    }
}

impl ByteConversions for u64 {
    open spec fn byte_size() -> nat {
        8
    }

    open spec fn spec_from_bytes(bytes: Seq<u8>) -> Self {
        spec_u64_from_le_bytes(bytes)
    }

    open spec fn spec_to_bytes(self) -> Seq<u8> {
        spec_u64_to_le_bytes(self)
    }

    fn size_in_bytes() -> (n: usize) {
        8
    }

    fn write_to(self, dst: &mut [u8]) {
        proof {
            lemma_auto_spec_u64_to_from_le_bytes();
        }
        let b = u64_to_le_bytes(self);
        copy_bytes(dst, b.as_slice());
    }

    fn read_from(src: &[u8]) -> (r: Self) {
        u64_from_le_bytes(src)
    }

    proof fn lemma_round_trip(x: Self) {
        lemma_auto_spec_u64_to_from_le_bytes();
        assert(spec_u64_to_le_bytes(x).len() == Self::byte_size());
    }
}

impl ByteConversions for i64 {
    open spec fn byte_size() -> nat {
        8
    }

    open spec fn spec_from_bytes(bytes: Seq<u8>) -> Self {
        spec_u64_from_le_bytes(bytes) as i64
    }

    open spec fn spec_to_bytes(self) -> Seq<u8> {
        spec_u64_to_le_bytes(self as u64)
    }

    fn size_in_bytes() -> (n: usize) {
        8
    }

    fn write_to(self, dst: &mut [u8]) {
        proof {
            lemma_auto_spec_u64_to_from_le_bytes();
        }
        let b = u64_to_le_bytes(self as u64);
        copy_bytes(dst, b.as_slice());
    }

    fn read_from(src: &[u8]) -> (r: Self) {
        u64_from_le_bytes(src) as i64
    }

    proof fn lemma_round_trip(x: Self) {
        lemma_auto_spec_u64_to_from_le_bytes();
        assert(spec_u64_to_le_bytes(x as u64).len() == Self::byte_size());
        assert((x as u64) as i64 == x) by (bit_vector);
    }
}

impl ByteConversions for u128 {
    open spec fn byte_size() -> nat {
        16
    }

    open spec fn spec_from_bytes(bytes: Seq<u8>) -> Self {
        spec_u128_from_le_bytes(bytes)
    }

    open spec fn spec_to_bytes(self) -> Seq<u8> {
        spec_u128_to_le_bytes(self)
    }

    fn size_in_bytes() -> (n: usize) {
        16
    }

    fn write_to(self, dst: &mut [u8]) {
        proof {
            lemma_auto_spec_u128_to_from_le_bytes();
        }
        let b = u128_to_le_bytes(self);
        copy_bytes(dst, b.as_slice());
    }

    fn read_from(src: &[u8]) -> (r: Self) {
        u128_from_le_bytes(src)
    }

    proof fn lemma_round_trip(x: Self) {
        lemma_auto_spec_u128_to_from_le_bytes();
        assert(spec_u128_to_le_bytes(x).len() == Self::byte_size());
    }
}

impl ByteConversions for i128 {
    open spec fn byte_size() -> nat {
        16
    }

    open spec fn spec_from_bytes(bytes: Seq<u8>) -> Self {
        spec_u128_from_le_bytes(bytes) as i128
    }

    open spec fn spec_to_bytes(self) -> Seq<u8> {
        spec_u128_to_le_bytes(self as u128)
    }

    fn size_in_bytes() -> (n: usize) {
        16
    }

    fn write_to(self, dst: &mut [u8]) {
        proof {
            lemma_auto_spec_u128_to_from_le_bytes();
        }
        let b = u128_to_le_bytes(self as u128);
        copy_bytes(dst, b.as_slice());
    }

    fn read_from(src: &[u8]) -> (r: Self) {
        u128_from_le_bytes(src) as i128
    }

    proof fn lemma_round_trip(x: Self) {
        lemma_auto_spec_u128_to_from_le_bytes();
        assert(spec_u128_to_le_bytes(x as u128).len() == Self::byte_size());
        assert((x as u128) as i128 == x) by (bit_vector);
    }
}


// ------------------------------------------------------------------------------------------------
// The memory management unit
// ------------------------------------------------------------------------------------------------

/// What a call of `write_mem(addr, data, size)` does: `new` is the unit after the call on `old`,
/// and `r` is what the call answered.
pub open spec fn write_post(old: Mmu, addr: int, data: Seq<u8>, size: int, r: Result<(), Fault>, new: Mmu) -> bool {
    &&& r == access_outcome(old.permissions@, addr, data.len() as int, size, Perms::WRITE, true)
    &&& match r {
        Ok(_) => {
            &&& new.memory@ == splice(old.memory@, addr, data.subrange(0, size))
            &&& new.permissions@ == old.permissions@
            &&& marks_pages(old.dirty@, new.dirty@, addr / 4096, (addr + size) / 4096 + 1)
            &&& bitmap_marks(old.dirty_bitmap@, new.dirty_bitmap@, addr / 4096, (addr + size) / 4096 + 1)
            &&& new.dirty_size == old.dirty_size
            &&& new.alloc_cursor() == old.alloc_cursor()
        },
        Err(_) => new.same_as(&old),
    }
}

/// The dirty list names the page of byte `i` among its first `k` entries.
pub open spec fn covered(dirty: Seq<usize>, k: int, i: int) -> bool {
    exists|m: int| 0 <= m < k && dirty[m] == (i / 4096) as usize
}

/// The dirty list names, among its first `k` entries, a page of bitmap word `w`.
pub open spec fn word_covered(dirty: Seq<usize>, k: int, w: int) -> bool {
    exists|m: int| 0 <= m < k && dirty[m] / 64 == w
}

/// What `reset(other)` does to a unit `old`, giving `new`: the pages on the dirty list get
/// the bytes and permissions of `other`, the dirty tracking is emptied and the heap cursor
/// returns to that of `other`.
pub open spec fn reset_post(old: Mmu, other: Mmu, new: Mmu) -> bool {
    &&& new.memory@ == Seq::new(
        old.memory@.len(),
        |i: int| if in_dirty_page(old.dirty@, i) { other.memory@[i] } else { old.memory@[i] },
    )
    &&& new.permissions@ == Seq::new(
        old.permissions@.len(),
        |i: int| if in_dirty_page(old.dirty@, i) { other.permissions@[i] } else { old.permissions@[i] },
    )
    &&& new.dirty@ == Seq::<usize>::empty()
    &&& new.dirty_size == 0
    &&& new.alloc_cursor() == other.alloc_cursor()
    &&& new.dirty_bitmap@ == Seq::new(
        old.dirty_bitmap@.len(),
        |w: int| if word_covered(old.dirty@, old.dirty@.len() as int, w) { 0u64 } else { old.dirty_bitmap@[w] },
    )
}

/// Every page on the dirty list lies inside the memory of both units.
pub open spec fn reset_defined(m: Mmu, other: Mmu) -> bool {
    forall|k: int|
        0 <= k < m.dirty@.len() ==> (m.dirty@[k] + 1) * 4096 <= m.memory@.len() && (m.dirty@[k] + 1)
            * 4096 <= other.memory@.len()
}

/// Outside the pages on its dirty list, `m` holds the bytes and permissions of `snap`.
pub open spec fn agrees_outside_dirty(m: Mmu, snap: Mmu) -> bool {
    &&& m.memory@.len() == snap.memory@.len()
    &&& m.permissions@.len() == snap.permissions@.len()
    &&& m.permissions@.len() == m.memory@.len()
    &&& forall|i: int|
        0 <= i < m.memory@.len() && !in_dirty_page(m.dirty@, i) ==> m.memory@[i] == snap.memory@[i]
            && m.permissions@[i] == snap.permissions@[i]
}

/// Size of the heap chunk that an allocation of `size` bytes takes: the request plus an inline
/// size field, rounded to 16 bytes.
pub open spec fn aligned_chunk(size: int) -> int {
    (size + 0x18) - (size + 0x18) % 16
}

/// What `allocate(size, perms)` does to a unit `old`, giving `new`, and answers (`r`).
pub open spec fn alloc_post(old: Mmu, size: int, perms: u8, r: Option<usize>, new: Mmu) -> bool {
    let aligned = aligned_chunk(size);
    let base = old.alloc_addr + 8;
    &&& (r is None <==> (base >= old.memory@.len() || base + aligned >= old.memory@.len()))
    &&& (r is None ==> new.same_as(&old))
    &&& (r is Some ==> {
        &&& r->0 == base
        &&& new.memory@ == splice(old.memory@, base - 8, spec_u64_to_le_bytes(aligned as u64))
        &&& new.permissions@ == splice(
            fill(old.permissions@, base, base + size, perms),
            base - 8,
            spec_u64_to_le_bytes(Perms::ISALLOC as u64),
        )
        &&& new.alloc_cursor() == old.alloc_cursor() + aligned
        &&& new.dirty@ == old.dirty@
        &&& new.dirty_bitmap@ == old.dirty_bitmap@
        &&& new.dirty_size == old.dirty_size
    })
}

/// The chunk size that the inline size field in front of `addr` holds.
pub open spec fn stored_size(mem: Seq<u8>, addr: int) -> int {
    (spec_u64_from_le_bytes(mem.subrange(addr - 8, addr)) as usize) as int
}

/// What `free(addr)` answers: an address outside memory, or one whose size field does not carry
/// the allocation tag, is refused.
pub open spec fn free_outcome(m: Mmu, addr: int) -> Result<(), Fault> {
    if addr > m.memory@.len() || addr < 8 || spec_u64_from_le_bytes(
        m.permissions@.subrange(addr - 8, addr),
    ) != Perms::ISALLOC as u64 {
        Err(Fault::InvalidFree(addr as usize))
    } else {
        Ok(())
    }
}

/// A free either is refused or unsets a range that wraps around or stays inside memory.
pub open spec fn free_defined(m: Mmu, addr: int) -> bool {
    ||| free_outcome(m, addr) is Err
    ||| stored_size(m.memory@, addr) == 0
    ||| (addr - 8) + stored_size(m.memory@, addr) > usize::MAX
    ||| (addr - 8) + stored_size(m.memory@, addr) <= m.memory@.len()
}

/// What `free(addr)` does to a unit `old`, giving `new`, and answers (`r`).
pub open spec fn free_post(old: Mmu, addr: int, r: Result<(), Fault>, new: Mmu) -> bool {
    let lo = addr - 8;
    let size = stored_size(old.memory@, addr);
    &&& r == free_outcome(old, addr)
    &&& (r is Err ==> new.same_as(&old))
    &&& (r is Ok ==> {
        &&& new.permissions@ == (if size != 0 && lo + size > usize::MAX {
            old.permissions@
        } else {
            fill(old.permissions@, lo, lo + size, Perms::UNSET)
        })
        &&& new.memory@ == old.memory@
        &&& new.dirty@ == old.dirty@
        &&& new.dirty_bitmap@ == old.dirty_bitmap@
        &&& new.dirty_size == old.dirty_size
        &&& new.alloc_cursor() == old.alloc_cursor()
    })
}

/// Loading the segment either fails on a wrapping address range or stays inside memory.
pub open spec fn load_defined(m: Mmu, seg: ProgramHeader, data_len: int) -> bool {
    ||| seg.vaddr + seg.memsz > usize::MAX
    ||| (seg.vaddr + seg.memsz <= m.memory@.len() && (seg.filesz <= seg.memsz || seg.filesz > data_len))
}

/// What `load_segment(seg, data)` does to a unit `old`, giving `new`, and answers (`r`): the
/// file bytes and the zero padding land at the segment's address, and the segment's flags become
/// the permissions of its whole memory range.
pub open spec fn load_post(old: Mmu, seg: ProgramHeader, data: Seq<u8>, r: Option<()>, new: Mmu) -> bool {
    let lo = seg.vaddr as int;
    let hi = seg.vaddr + seg.memsz;
    &&& (r is None <==> (hi > usize::MAX || seg.filesz > data.len()))
    &&& (hi > usize::MAX ==> new.same_as(&old))
    &&& (hi <= usize::MAX && seg.filesz > data.len() ==> {
        &&& new.permissions@ == fill(old.permissions@, lo, hi, Perms::WRITE)
        &&& new.memory@ == old.memory@
        &&& new.dirty@ == old.dirty@
        &&& new.dirty_bitmap@ == old.dirty_bitmap@
        &&& new.dirty_size == old.dirty_size
        &&& new.alloc_cursor() == old.alloc_cursor()
    })
    &&& (r is Some ==> {
        &&& new.memory@ == splice(
            splice(old.memory@, lo, data.subrange(0, seg.filesz as int)),
            lo + seg.filesz,
            Seq::new((seg.memsz - seg.filesz) as nat, |i: int| 0u8),
        )
        &&& new.permissions@ == fill(old.permissions@, lo, hi, seg.flags as u8)
        &&& marks_pages(old.dirty@, new.dirty@, lo / 4096, hi / 4096 + 1)
        &&& bitmap_marks(old.dirty_bitmap@, new.dirty_bitmap@, lo / 4096, hi / 4096 + 1)
        &&& new.dirty_size == old.dirty_size
        &&& new.alloc_cursor() == old.alloc_cursor()
    })
}

proof fn lemma_marks_compose(d0: Seq<usize>, d1: Seq<usize>, d2: Seq<usize>, a: int, b: int, c: int)
    requires
        a <= b <= c,
        marks_pages(d0, d1, a, b + 1),
        marks_pages(d1, d2, b, c + 1),
        d2.no_duplicates(),
    ensures
        marks_pages(d0, d2, a, c + 1),
{
    assert(d2.subrange(0, d0.len() as int) =~= d1.subrange(0, d0.len() as int)) by {
        assert forall|i: int| 0 <= i < d0.len() implies d2[i] == d1[i] by {
            assert(d2.subrange(0, d1.len() as int)[i] == d1[i]);
        }
    }
    assert forall|p: int, q: int| d0.len() <= p < q < d2.len() implies d2[p] < d2[q] by {
        if q < d1.len() {
            assert(d2[p] == d1[p] && d2[q] == d1[q]) by {
                assert(d2.subrange(0, d1.len() as int)[p] == d1[p]);
                assert(d2.subrange(0, d1.len() as int)[q] == d1[q]);
            }
        } else if p < d1.len() {
            assert(d2[p] == d1[p]) by {
                assert(d2.subrange(0, d1.len() as int)[p] == d1[p]);
            }
            // d1[p] was appended in the first batch, so it is at most b; d2[q] is at least b and
            // differs from every entry of d1.
            assert(d1.contains(d1[p]));
            assert(d2.contains(d2[q]));
            assert(!d0.contains(d1[p])) by {
                if d0.contains(d1[p]) {
                    let m = choose|m: int| 0 <= m < d0.len() && d0[m] == d1[p];
                    assert(d1[m] == d0[m]) by {
                        assert(d1.subrange(0, d0.len() as int)[m] == d0[m]);
                    }
                    assert(d2[m] == d2[p]) by {
                        assert(d2.subrange(0, d1.len() as int)[m] == d1[m]);
                    }
                }
            }
            assert(!d1.contains(d2[q])) by {
                if d1.contains(d2[q]) {
                    let m = choose|m: int| 0 <= m < d1.len() && d1[m] == d2[q];
                    assert(d2[m] == d1[m]) by {
                        assert(d2.subrange(0, d1.len() as int)[m] == d1[m]);
                    }
                }
            }
        }
    }
}

/// `new` is a fork of `orig`: the same bytes, permissions and heap cursor, and no dirty pages.
pub open spec fn fork_post(orig: Mmu, new: Mmu) -> bool {
    &&& new.memory@ == orig.memory@
    &&& new.permissions@ == orig.permissions@
    &&& new.alloc_cursor() == orig.alloc_cursor()
    &&& new.dirty@ == Seq::<usize>::empty()
    &&& new.dirty_size == 0
    &&& forall|w: int| 0 <= w < new.dirty_bitmap@.len() ==> new.dirty_bitmap@[w] == 0
}

/// Describes the virtual memory space that each emulator uses (each emulator has their own)
#[derive(Debug)]
pub struct Mmu {
    /// Block of memory used by an emulator instance, contains the actual memory
    pub memory: Vec<u8>,

    /// Memory permissions used by an emulator instance. Map 1:1 to memory
    pub permissions: Vec<u8>,

    /// Holds the current program break at which new memory is allocated whenever needed
    pub alloc_addr: usize,

    /// Pages written since the last reset, in the order in which they were first written
    pub dirty: Vec<usize>,

    /// One bit per page, set for the pages in `dirty`
    pub dirty_bitmap: Vec<u64>,

    /// Length of the dirty list as last reported by the JIT
    pub dirty_size: u64,
}

impl Mmu {
    /// The address of the size field of the next heap chunk
    pub open spec fn alloc_cursor(&self) -> int {
        self.alloc_addr as int
    }

    /// The allocation cursor leaves room for the size field of the next chunk
    pub open spec fn alloc_ok(&self) -> bool {
        self.alloc_addr + 8 <= usize::MAX
    }

    /// Index of the last page that a write can touch
    pub open spec fn last_page(&self) -> int {
        (self.memory@.len() / 4096) as int
    }

    /// The dirty list and the dirty bitmap describe the same set of pages
    pub open spec fn pages_tracked(&self) -> bool {
        &&& self.dirty_bitmap@.len() == self.memory@.len() / 4096 / 64 + 1
        &&& forall|k: int| 0 <= k < self.dirty@.len() ==> self.dirty@[k] <= self.last_page()
        &&& self.dirty@.no_duplicates()
        &&& forall|b: int|
            0 <= b <= self.last_page() ==> (page_marked(self.dirty_bitmap@, b)
                <==> self.dirty@.contains(b as usize))
    }

    /// Well-formedness: one permission byte per memory byte, consistent dirty tracking
    pub open spec fn wf(&self) -> bool {
        &&& self.permissions@.len() == self.memory@.len()
        &&& self.memory@.len() <= usize::MAX
        &&& self.pages_tracked()
        &&& self.alloc_ok()
    }

    /// Every field of `self` equals the same field of `other`
    pub open spec fn same_as(&self, other: &Mmu) -> bool {
        &&& self.memory@ == other.memory@
        &&& self.permissions@ == other.permissions@
        &&& self.dirty@ == other.dirty@
        &&& self.dirty_bitmap@ == other.dirty_bitmap@
        &&& self.dirty_size == other.dirty_size
        &&& self.alloc_cursor() == other.alloc_cursor()
    }

    /// Allocate initial memory space
    pub fn new(size: usize) -> (r: Self)
        ensures
            r.wf(),
            r.memory@ == Seq::new(size as nat, |i: int| 0u8),
            r.permissions@ == Seq::new(size as nat, |i: int| 0u8),
            r.dirty@ == Seq::<usize>::empty(),
            r.dirty_size == 0,
            r.alloc_cursor() == FIRSTALLOCATION,
            forall|w: int| 0 <= w < r.dirty_bitmap@.len() ==> r.dirty_bitmap@[w] == 0,
    {
        let memory = vec![0u8; size];
        let permissions = vec![0u8; size];
        let dirty_bitmap = vec![0u64; size / 4096 / 64 + 1];
        let r = Mmu {
            memory,
            permissions,
            alloc_addr: FIRSTALLOCATION,
            dirty: Vec::with_capacity(size / 4096 + 1),
            dirty_bitmap,
            dirty_size: 0,
        };
        proof {
            assert(r.memory@ =~= Seq::new(size as nat, |i: int| 0u8));
            assert(r.permissions@ =~= Seq::new(size as nat, |i: int| 0u8));
            assert forall|b: int| 0 <= b <= r.last_page() implies !page_marked(
                r.dirty_bitmap@,
                b,
            ) by {
                lemma_page_bound(b, size as int);
                lemma_zero_word((b % 64) as u64);
            }
        }
        r
    }

    /// Fork the mmu's memory so another emulator can be started with it. This will be an exact copy
    /// of the input emulator, except that the dirty lists will be emptied.
    pub fn fork(&self) -> (r: Self)
        requires
            self.wf(),
        ensures
            r.wf(),
            fork_post(*self, r),
    {
        let size = self.memory.len();
        let memory = self.memory.clone();
        let permissions = self.permissions.clone();
        proof {
            assert(memory@ =~= self.memory@);
            assert(permissions@ =~= self.permissions@);
        }
        let dirty_bitmap = vec![0u64; size / 4096 / 64 + 1];
        let r = Mmu {
            memory,
            permissions,
            alloc_addr: self.alloc_addr,
            dirty: Vec::with_capacity(size / 4096 + 1),
            dirty_bitmap,
            dirty_size: 0,
        };
        proof {
            assert forall|b: int| 0 <= b <= r.last_page() implies !page_marked(
                r.dirty_bitmap@,
                b,
            ) by {
                lemma_page_bound(b, size as int);
                lemma_zero_word((b % 64) as u64);
            }
        }
        r
    }

    /// Validate that a byte in memory has a certain permission
    pub fn check_perms(perm_to_check: u8, control: u8) -> (r: Option<()>)
        ensures
            r is Some <==> has_perms(perm_to_check, control),
    {
        if perm_to_check & control != control {
            return None;
        }
        Some(())
    }

    /// The first byte in `lo..hi` that lacks `p`, reported as a fault of the given kind
    fn first_fault(&self, lo: usize, hi: usize, p: u8, is_write: bool) -> (r: Result<(), Fault>)
        requires
            self.wf(),
            lo <= hi,
            hi <= self.memory@.len() || lacks_in(self.permissions@, lo as int, self.memory@.len() as int, p),
        ensures
            r == match first_lacking(self.permissions@, lo as int, hi as int, p) {
                Some(i) => Err(fault_at(is_write, i)),
                None => Ok(()),
            },
    {
        let mut i = lo;
        while i < hi
            invariant
                self.wf(),
                lo <= i <= hi,
                first_lacking(self.permissions@, lo as int, i as int, p) is None,
                hi <= self.memory@.len() || lacks_in(self.permissions@, lo as int, self.memory@.len() as int, p),
            decreases hi - i,
        {
            proof {
                lemma_first_lacking(self.permissions@, lo as int, i as int, p);
                lemma_first_lacking_extend(self.permissions@, lo as int, i as int, p);
                if i >= self.memory@.len() {
                    let w = choose|j: int|
                        lo <= j < self.memory@.len() && !has_perms(#[trigger] self.permissions@[j], p);
                    assert(has_perms(self.permissions@[w], p));
                }
            }
            if Mmu::check_perms(self.permissions[i], p).is_none() {
                proof {
                    lemma_lacks_when_first(self.permissions@, lo as int, i + 1, p);
                    lemma_first_lacking_cut(self.permissions@, lo as int, i + 1, hi as int, p);
                }
                if is_write {
                    return Err(Fault::WriteFault(i));
                } else {
                    return Err(Fault::ReadFault(i));
                }
            }
            i = i + 1;
        }
        Ok(())
    }

    /// Mark the pages `first..=last` dirty, appending those not yet on the dirty list
    fn mark_dirty(&mut self, first: usize, last: usize)
        requires
            old(self).wf(),
            first <= last <= old(self).last_page(),
        ensures
            final(self).wf(),
            final(self).memory@ == old(self).memory@,
            final(self).permissions@ == old(self).permissions@,
            final(self).dirty_size == old(self).dirty_size,
            final(self).alloc_cursor() == old(self).alloc_cursor(),
            marks_pages(old(self).dirty@, final(self).dirty@, first as int, last + 1),
            bitmap_marks(old(self).dirty_bitmap@, final(self).dirty_bitmap@, first as int, last + 1),
    {
        let mut block = first;
        assert(last < usize::MAX);
        assert(self.dirty@.subrange(0, self.dirty@.len() as int) =~= self.dirty@);
        while block <= last
            invariant
                old(self).wf(),
                first <= block <= last + 1,
                last <= old(self).last_page(),
                last < usize::MAX,
                self.wf(),
                self.memory@ == old(self).memory@,
                self.permissions@ == old(self).permissions@,
                self.dirty_size == old(self).dirty_size,
                self.alloc_addr == old(self).alloc_addr,
                marks_pages(old(self).dirty@, self.dirty@, first as int, block as int),
                bitmap_marks(old(self).dirty_bitmap@, self.dirty_bitmap@, first as int, block as int),
                forall|k: int|
                    old(self).dirty@.len() <= k < self.dirty@.len() ==> self.dirty@[k] < block,
            decreases last + 1 - block,
        {
            let idx = block / 64;
            let bit = (block % 64) as u64;
            proof {
                lemma_page_bound(block as int, self.memory@.len() as int);
            }
            let word = self.dirty_bitmap[idx];
            let ghost pre = *self;
            proof {
                lemma_bit_set(word, bit, bit);
            }
            if word & (1u64 << bit) == 0 {
                self.dirty.push(block);
                self.dirty_bitmap.set(idx, word | (1u64 << bit));
                proof {
                    assert(page_marked(pre.dirty_bitmap@, block as int) <==> pre.dirty@.contains(block as int as usize));
                    assert(!pre.dirty@.contains(block));
                    assert forall|b: int| 0 <= b < 64 * pre.dirty_bitmap@.len() implies
                        page_marked(self.dirty_bitmap@, b) == (page_marked(pre.dirty_bitmap@, b) || b == block) by {
                        if b / 64 == idx {
                            lemma_bit_set(word, bit, (b % 64) as u64);
                            if b % 64 == bit {
                                lemma_same_slot(b, block as int);
                            }
                        }
                    }
                    assert forall|b: usize| #[trigger] self.dirty@.contains(b) <==> (pre.dirty@.contains(b) || b == block) by {
                        if self.dirty@.contains(b) {
                            let k = choose|k: int| 0 <= k < self.dirty@.len() && self.dirty@[k] == b;
                            if k < pre.dirty@.len() {
                                assert(pre.dirty@[k] == b);
                            }
                        }
                        if pre.dirty@.contains(b) {
                            let k = choose|k: int| 0 <= k < pre.dirty@.len() && pre.dirty@[k] == b;
                            assert(self.dirty@[k] == b);
                        }
                        if b == block {
                            assert(self.dirty@[self.dirty@.len() - 1] == b);
                        }
                    }
                    assert(self.dirty@.subrange(0, old(self).dirty@.len() as int) =~= pre.dirty@.subrange(0, old(self).dirty@.len() as int));
                    assert forall|b: int| 0 <= b <= self.last_page() implies (page_marked(self.dirty_bitmap@, b)
                        <==> self.dirty@.contains(b as usize)) by {
                        assert(b < 64 * pre.dirty_bitmap@.len());
                        assert(b <= usize::MAX);
                        assert((b as usize) as int == b);
                        assert(pre.dirty@.contains(b as usize) <==> page_marked(pre.dirty_bitmap@, b));
                        assert(self.dirty@.contains(b as usize) <==> (pre.dirty@.contains(b as usize) || b as usize == block));
                        assert(page_marked(self.dirty_bitmap@, b) == (page_marked(pre.dirty_bitmap@, b) || b == block));
                    }
                }
            } else {
                proof {
                    lemma_bit_set(word, bit, bit);
                    assert(page_marked(self.dirty_bitmap@, block as int));
                    assert(self.dirty@.contains(block));
                }
            }
            block = block + 1;
        }
    }

    /// If perms::WRITE are set, write {size} bytes from {data} into the memory space at {addr}
    pub fn write_mem(&mut self, addr: usize, data: &[u8], size: usize) -> (r: Result<(), Fault>)
        requires
            old(self).wf(),
            write_defined(old(self).memory@.len() as int, old(self).permissions@, addr as int, data@.len() as int, size as int),
        ensures
            final(self).wf(),
            write_post(*old(self), addr as int, data@, size as int, r, *final(self)),
    {
        if size > data.len() {
            return Err(Fault::WriteFault(data.len()));
        }
        let end_addr = match addr.checked_add(size) {
            Some(e) => e,
            None => return Err(Fault::IntegerOverflow),
        };
        proof {
            if end_addr > self.memory@.len() {
                lemma_first_lacking(self.permissions@, addr as int, self.memory@.len() as int, Perms::WRITE);
            }
        }
        self.first_fault(addr, end_addr, Perms::WRITE, true)?;
        proof {
            lemma_first_lacking(self.permissions@, addr as int, end_addr as int, Perms::WRITE);
            if end_addr > self.memory@.len() {
                let w = choose|j: int|
                    addr <= j < self.memory@.len() && !has_perms(#[trigger] self.permissions@[j], Perms::WRITE);
                assert(has_perms(self.permissions@[w], Perms::WRITE));
            }
        }
        let mut j: usize = 0;
        while j < size
            invariant
                old(self).wf(),
                j <= size,
                size <= data@.len(),
                end_addr == addr + size,
                end_addr <= old(self).memory@.len(),
                self.memory@ == splice(old(self).memory@, addr as int, data@.subrange(0, j as int)),
                self.permissions@ == old(self).permissions@,
                self.dirty@ == old(self).dirty@,
                self.dirty_bitmap@ == old(self).dirty_bitmap@,
                self.dirty_size == old(self).dirty_size,
                self.alloc_addr == old(self).alloc_addr,
            decreases size - j,
        {
            self.memory[addr + j] = data[j];
            assert(self.memory@ =~= splice(old(self).memory@, addr as int, data@.subrange(0, j + 1)));
            j = j + 1;
        }
        self.mark_dirty(addr / 4096, end_addr / 4096);
        Ok(())
    }

    /// If all permissions are set, read {size} bytes from the memory space into the start of the
    /// {data} reference; the rest of it keeps its bytes
    pub fn read_into(&mut self, addr: usize, data: &mut [u8], size: usize, perms: u8) -> (r: Result<(), Fault>)
        requires
            old(self).wf(),
            read_defined(old(self).memory@.len() as int, old(self).permissions@, addr as int, old(data)@.len() as int, size as int, perms),
        ensures
            final(self).same_as(old(self)),
            r == access_outcome(old(self).permissions@, addr as int, old(data)@.len() as int, size as int, perms, false),
            r is Ok ==> final(data)@ == old(self).memory@.subrange(addr as int, addr + size) + old(
                data,
            )@.subrange(size as int, old(data)@.len() as int),
            r is Err ==> final(data)@ == old(data)@,
    {
        if size > data.len() {
            return Err(Fault::ReadFault(data.len()));
        }
        let end_addr = match addr.checked_add(size) {
            Some(e) => e,
            None => return Err(Fault::IntegerOverflow),
        };
        proof {
            self.lemma_range_cut(addr as int, end_addr as int, perms);
        }
        self.first_fault(addr, end_addr, perms, false)?;
        proof {
            self.lemma_range_clear(addr as int, end_addr as int, perms, data@.len() as int, size as int);
        }
        let src = slice_subrange(self.memory.as_slice(), addr, end_addr);
        copy_bytes(data, src);
        Ok(())
    }

    /// If all permissions are set, read size_of<T> bytes from the memory space and return them as
    /// type T. Uses generics to support reads of different sizes (u8, u16, ...). The return type
    /// is specified by the caller of the function
    pub fn read_at<T: ByteConversions>(&self, addr: usize, perms: u8) -> (r: Result<T, Fault>)
        requires
            self.wf(),
            addr + T::byte_size() > usize::MAX
                || addr + T::byte_size() <= self.memory@.len()
                || lacks_in(self.permissions@, addr as int, self.memory@.len() as int, perms),
        ensures
            r == (if addr + T::byte_size() > usize::MAX {
                Err(Fault::IntegerOverflow)
            } else {
                match first_lacking(self.permissions@, addr as int, addr + T::byte_size(), perms) {
                    Some(i) => Err(Fault::ReadFault(i as usize)),
                    None => Ok(T::spec_from_bytes(self.memory@.subrange(addr as int, addr + T::byte_size()))),
                }
            }),
    {
        let n = T::size_in_bytes();
        let end_addr = match addr.checked_add(n) {
            Some(e) => e,
            None => return Err(Fault::IntegerOverflow),
        };
        proof {
            if end_addr > self.memory@.len() {
                lemma_first_lacking(self.permissions@, addr as int, self.memory@.len() as int, perms);
            }
        }
        self.first_fault(addr, end_addr, perms, false)?;
        proof {
            lemma_first_lacking(self.permissions@, addr as int, end_addr as int, perms);
            if end_addr > self.memory@.len() {
                let w = choose|j: int|
                    addr <= j < self.memory@.len() && !has_perms(#[trigger] self.permissions@[j], perms);
                assert(has_perms(self.permissions@[w], perms));
            }
        }
        let src = slice_subrange(self.memory.as_slice(), addr, end_addr);
        Ok(T::read_from(src))
    }

    /// Restores memory back to original state prior to any fuzz cases
    pub fn reset(&mut self, other: &Mmu)
        requires
            old(self).wf(),
            other.wf(),
            reset_defined(*old(self), *other),
        ensures
            final(self).wf(),
            reset_post(*old(self), *other, *final(self)),
    {
        let n = self.dirty.len();
        let ghost len = self.memory@.len();
        let mut k: usize = 0;
        while k < n
            invariant
                old(self).wf(),
                other.wf(),
                reset_defined(*old(self), *other),
                n == old(self).dirty@.len(),
                k <= n,
                len == old(self).memory@.len(),
                self.dirty@ == old(self).dirty@,
                self.dirty_size == old(self).dirty_size,
                self.alloc_addr == old(self).alloc_addr,
                self.memory@ == Seq::new(
                    len,
                    |i: int| if covered(old(self).dirty@, k as int, i) { other.memory@[i] } else { old(self).memory@[i] },
                ),
                self.permissions@ == Seq::new(
                    len,
                    |i: int| if covered(old(self).dirty@, k as int, i) { other.permissions@[i] } else { old(self).permissions@[i] },
                ),
                self.dirty_bitmap@ == Seq::new(
                    old(self).dirty_bitmap@.len(),
                    |w: int| if word_covered(old(self).dirty@, k as int, w) { 0u64 } else { old(self).dirty_bitmap@[w] },
                ),
            decreases n - k,
        {
            let block = self.dirty[k];
            let start = block * 4096;
            let end = (block + 1) * 4096;
            proof {
                lemma_page_bound(block as int, len as int);
            }
            self.dirty_bitmap.set(block / 64, 0);
            let ghost bm = self.dirty_bitmap@;
            let mut j = start;
            while j < end
                invariant
                    old(self).wf(),
                    self.dirty@ == old(self).dirty@,
                    self.dirty_size == old(self).dirty_size,
                    self.alloc_addr == old(self).alloc_addr,
                    self.dirty_bitmap@ == bm,
                    other.wf(),
                    start <= j <= end,
                    start == block * 4096,
                    end == start + 4096,
                    end <= len,
                    end <= other.memory@.len(),
                    block == old(self).dirty@[k as int],
                    k < n,
                    n == old(self).dirty@.len(),
                    len == old(self).memory@.len(),
                    self.memory@ == Seq::new(
                        len,
                        |i: int| if covered(old(self).dirty@, k as int, i) || (start <= i < j) { other.memory@[i] } else { old(self).memory@[i] },
                    ),
                    self.permissions@ == Seq::new(
                        len,
                        |i: int| if covered(old(self).dirty@, k as int, i) || (start <= i < j) { other.permissions@[i] } else { old(self).permissions@[i] },
                    ),
                decreases end - j,
            {
                self.memory[j] = other.memory[j];
                self.permissions[j] = other.permissions[j];
                proof {
                    assert(self.memory@ =~= Seq::new(
                        len,
                        |i: int| if covered(old(self).dirty@, k as int, i) || (start <= i < j + 1) { other.memory@[i] } else { old(self).memory@[i] },
                    ));
                    assert(self.permissions@ =~= Seq::new(
                        len,
                        |i: int| if covered(old(self).dirty@, k as int, i) || (start <= i < j + 1) { other.permissions@[i] } else { old(self).permissions@[i] },
                    ));
                }
                j = j + 1;
            }
            proof {
                assert forall|i: int| 0 <= i < len implies (covered(old(self).dirty@, k + 1, i) <==> (covered(old(self).dirty@, k as int, i) || (start <= i < end))) by {
                    if start <= i < end {
                        assert(i / 4096 == block);
                        assert(old(self).dirty@[k as int] == (i / 4096) as usize);
                    }
                    if covered(old(self).dirty@, k + 1, i) && !covered(old(self).dirty@, k as int, i) {
                        let m = choose|m: int| 0 <= m < k + 1 && old(self).dirty@[m] == (i / 4096) as usize;
                        assert(m == k);
                        assert(i / 4096 == block);
                    }
                }
                assert(self.memory@ =~= Seq::new(
                    len,
                    |i: int| if covered(old(self).dirty@, k + 1, i) { other.memory@[i] } else { old(self).memory@[i] },
                ));
                assert(self.permissions@ =~= Seq::new(
                    len,
                    |i: int| if covered(old(self).dirty@, k + 1, i) { other.permissions@[i] } else { old(self).permissions@[i] },
                ));
                assert forall|w: int| 0 <= w < old(self).dirty_bitmap@.len() implies (word_covered(old(self).dirty@, k + 1, w) <==> (word_covered(old(self).dirty@, k as int, w) || w == block / 64)) by {
                    if w == block / 64 {
                        assert(old(self).dirty@[k as int] / 64 == w);
                    }
                    if word_covered(old(self).dirty@, k + 1, w) && !word_covered(old(self).dirty@, k as int, w) {
                        let m = choose|m: int| 0 <= m < k + 1 && old(self).dirty@[m] / 64 == w;
                        assert(m == k);
                    }
                }
                assert(self.dirty_bitmap@ =~= Seq::new(
                    old(self).dirty_bitmap@.len(),
                    |w: int| if word_covered(old(self).dirty@, k + 1, w) { 0u64 } else { old(self).dirty_bitmap@[w] },
                ));
            }
            k = k + 1;
        }
        self.dirty.clear();
        self.dirty_size = 0;
        self.alloc_addr = other.alloc_addr;
        proof {
            let od = old(self).dirty@;
            assert forall|i: int| 0 <= i < len implies (covered(od, n as int, i) == in_dirty_page(od, i)) by {
                if in_dirty_page(od, i) {
                    let m = choose|m: int| 0 <= m < od.len() && od[m] == (i / 4096) as usize;
                    assert(covered(od, n as int, i));
                }
            }
            assert(self.memory@ =~= Seq::new(
                len,
                |i: int| if in_dirty_page(od, i) { other.memory@[i] } else { old(self).memory@[i] },
            ));
            assert(self.permissions@ =~= Seq::new(
                len,
                |i: int| if in_dirty_page(od, i) { other.permissions@[i] } else { old(self).permissions@[i] },
            ));
            assert forall|b: int| 0 <= b <= self.last_page() implies !page_marked(self.dirty_bitmap@, b) by {
                lemma_page_bound(b, len as int);
                if word_covered(od, n as int, b / 64) {
                    lemma_zero_word((b % 64) as u64);
                } else {
                    if od.contains(b as usize) {
                        let m = choose|m: int| 0 <= m < od.len() && od[m] == b as usize;
                        assert(od[m] / 64 == b / 64);
                    }
                    assert(!page_marked(old(self).dirty_bitmap@, b));
                }
            }
        }
    }

    /// Allocate some new RW memory, memory is never repeated, each allocation returns fresh memory,
    /// even if a prior allocation was free'd
    pub fn allocate(&mut self, size: usize, perms: u8) -> (r: Option<usize>)
        requires
            old(self).wf(),
            size + 0x18 <= usize::MAX,
        ensures
            final(self).wf(),
            alloc_post(*old(self), size as int, perms, r, *final(self)),
    {
        // 0x10 byte align the allocation size and some additional bytes that can be used for an
        // inlined size field.
        let aligned_size = (size + 0x18) & !0xfusize;
        proof {
            let x = (size + 0x18) as usize;
            assert(x & !0xfusize == x - x % 16) by (bit_vector);
        }
        let base = self.alloc_addr + 8;

        // Cannot allocate without running out of memory
        if base >= self.memory.len() {
            return None;
        }
        let end = match base.checked_add(aligned_size) {
            Some(e) => e,
            None => return None,
        };
        if end >= self.memory.len() {
            return None;
        }

        // Write sizefield into memory region 8 bytes prior to allocation (inline metadata)
        let size_field = u64_to_le_bytes(aligned_size as u64);
        proof {
            lemma_auto_spec_u64_to_from_le_bytes();
            assert(size_field@.len() == 8);
        }
        let mut i: usize = 0;
        while i < 8
            invariant
                old(self).wf(),
                i <= 8,
                base == old(self).alloc_addr + 8,
                base < end,
                end < old(self).memory@.len(),
                size_field@.len() == 8,
                self.memory@ == splice(old(self).memory@, base - 8, size_field@.subrange(0, i as int)),
                self.permissions@ == old(self).permissions@,
                self.dirty@ == old(self).dirty@,
                self.dirty_bitmap@ == old(self).dirty_bitmap@,
                self.dirty_size == old(self).dirty_size,
                self.alloc_addr == old(self).alloc_addr,
            decreases 8 - i,
        {
            self.memory[base - 8 + i] = size_field[i];
            assert(self.memory@ =~= splice(old(self).memory@, base - 8, size_field@.subrange(0, i + 1)));
            i = i + 1;
        }
        assert(size_field@.subrange(0, 8) =~= size_field@);

        // Set Write permissions on allocated memory region and increase the next allocation addr
        self.set_permissions(base, size, perms);
        self.alloc_addr = self.alloc_addr + aligned_size;

        // Overwrite the size_field meta_data with special permission to indicate that it was
        // properly allocated using malloc. This allows us to check for invalid free's if the
        // permission is not set
        let tag = u64_to_le_bytes(Perms::ISALLOC as u64);
        let ghost filled = self.permissions@;
        let ghost mid = *self;
        proof {
            assert(tag@.len() == 8);
        }
        let mut i: usize = 0;
        while i < 8
            invariant
                i <= 8,
                base == old(self).alloc_addr + 8,
                base < end,
                end < old(self).memory@.len(),
                tag@.len() == 8,
                filled.len() == old(self).memory@.len(),
                self.permissions@ == splice(filled, base - 8, tag@.subrange(0, i as int)),
                self.memory@ == mid.memory@,
                self.dirty@ == mid.dirty@,
                self.dirty_bitmap@ == mid.dirty_bitmap@,
                self.dirty_size == mid.dirty_size,
                self.alloc_addr == mid.alloc_addr,
            decreases 8 - i,
        {
            self.permissions[base - 8 + i] = tag[i];
            assert(self.permissions@ =~= splice(filled, base - 8, tag@.subrange(0, i + 1)));
            i = i + 1;
        }
        assert(tag@.subrange(0, 8) =~= tag@);
        Some(base)
    }

    /// Free a region of previously allocated memory
    pub fn free(&mut self, addr: usize) -> (r: Result<(), Fault>)
        requires
            old(self).wf(),
            free_defined(*old(self), addr as int),
        ensures
            final(self).wf(),
            free_post(*old(self), addr as int, r, *final(self)),
    {
        if addr > self.memory.len() || addr < 8 {
            return Err(Fault::InvalidFree(addr));
        }

        // Retrieve sizefield that was stored as inlined metadata 8 bytes prior to the chunk
        let size = u64_from_le_bytes(slice_subrange(self.memory.as_slice(), addr - 8, addr)) as usize;

        // Verify that the permissions at the specified size field match up with a valid allocation
        let tag = u64_from_le_bytes(slice_subrange(self.permissions.as_slice(), addr - 8, addr));
        if tag != Perms::ISALLOC as u64 {
            return Err(Fault::InvalidFree(addr));
        }

        // Unset all permissions including metadata
        self.set_permissions(addr - 8, size, Perms::UNSET);
        Ok(())
    }

    /// `free(addr)` is defined: it is refused, or the chunk it releases wraps around or stays
    /// inside memory
    pub fn free_is_defined(&self, addr: usize) -> (r: bool)
        requires
            self.wf(),
        ensures
            r == free_defined(*self, addr as int),
    {
        if addr > self.memory.len() || addr < 8 {
            return true;
        }
        let size = u64_from_le_bytes(slice_subrange(self.memory.as_slice(), addr - 8, addr)) as usize;
        let tag = u64_from_le_bytes(slice_subrange(self.permissions.as_slice(), addr - 8, addr));
        if tag != Perms::ISALLOC as u64 || size == 0 {
            return true;
        }
        match (addr - 8).checked_add(size) {
            Some(end) => end <= self.memory.len(),
            None => true,
        }
    }

    /// `reset(other)` is defined: every page on the dirty list lies inside both units' memory
    pub fn reset_is_defined(&self, other: &Mmu) -> (r: bool)
        ensures
            r == reset_defined(*self, *other),
    {
        let n = self.memory.len();
        let m = other.memory.len();
        let mut k: usize = 0;
        while k < self.dirty.len()
            invariant
                k <= self.dirty@.len(),
                n == self.memory@.len(),
                m == other.memory@.len(),
                forall|j: int|
                    0 <= j < k ==> (self.dirty@[j] + 1) * 4096 <= self.memory@.len() && (self.dirty@[j] + 1)
                        * 4096 <= other.memory@.len(),
            decreases self.dirty@.len() - k,
        {
            let p = self.dirty[k];
            if p >= n / 4096 || p >= m / 4096 {
                assert((p + 1) * 4096 > n || (p + 1) * 4096 > m) by (nonlinear_arith)
                    requires
                        p >= n / 4096 || p >= m / 4096,
                ;
                return false;
            }
            assert((p + 1) * 4096 <= n && (p + 1) * 4096 <= m) by (nonlinear_arith)
                requires
                    p < n / 4096,
                    p < m / 4096,
            ;
            k = k + 1;
        }
        true
    }

    /// Load a given segment into memory
    pub fn load_segment(&mut self, segment: ProgramHeader, data: &[u8]) -> (r: Option<()>)
        requires
            old(self).wf(),
            load_defined(*old(self), segment, data@.len() as int),
        ensures
            final(self).wf(),
            load_post(*old(self), segment, data@, r, *final(self)),
    {
        // Set permissions to perms::WRITE to avoid errors during write_mem and perform the write
        self.set_permissions(segment.vaddr, segment.memsz, Perms::WRITE)?;
        let ghost writable = *self;
        proof {
            if segment.filesz <= data@.len() {
                lemma_first_lacking(self.permissions@, segment.vaddr as int, segment.vaddr + segment.filesz, Perms::WRITE);
            }
        }
        let w1 = self.write_mem(segment.vaddr, data, segment.filesz);
        if w1.is_err() {
            proof {
                if segment.filesz <= data@.len() {
                    assert(first_lacking(writable.permissions@, segment.vaddr as int, segment.vaddr + segment.filesz, Perms::WRITE) is None) by {
                        self.lemma_fill_grants(writable.permissions@, segment.vaddr as int, segment.vaddr + segment.filesz, segment.vaddr as int, segment.vaddr + segment.memsz, old(self).permissions@);
                    }
                }
            }
            return None;
        }
        let ghost after_file = *self;

        // ELF files can contain padding that needs to be loaded into memory but does not exist
        // in the file on disk, we still need to fill it up in memory though
        let pad_len = segment.memsz - segment.filesz;
        let padding = vec![0u8; pad_len];
        let pad_at = segment.vaddr + segment.filesz;
        proof {
            self.lemma_fill_grants(self.permissions@, pad_at as int, pad_at + padding@.len(), segment.vaddr as int, segment.vaddr + segment.memsz, old(self).permissions@);
        }
        let w2 = self.write_mem(pad_at, padding.as_slice(), padding.len());
        if w2.is_err() {
            return None;
        }
        let ghost after_pad = *self;

        // Set the permissions to the proper values as specified by the segment header information
        self.set_permissions(segment.vaddr, segment.memsz, segment.flags as u8);
        proof {
            assert(padding@ =~= Seq::new((segment.memsz - segment.filesz) as nat, |i: int| 0u8));
            assert(padding@.subrange(0, padding@.len() as int) =~= padding@);
            assert(self.permissions@ =~= fill(old(self).permissions@, segment.vaddr as int, segment.vaddr + segment.memsz, segment.flags as u8));
            lemma_marks_compose(old(self).dirty@, after_file.dirty@, after_pad.dirty@,
                (segment.vaddr / 4096) as int, (pad_at / 4096) as int, (segment.vaddr + segment.memsz) / 4096);
        }
        Some(())
    }

    /// Bytes of a range set to WRITE grant WRITE.
    proof fn lemma_fill_grants(&self, perms: Seq<u8>, lo: int, hi: int, flo: int, fhi: int, base: Seq<u8>)
        requires
            perms == fill(base, flo, fhi, Perms::WRITE),
            0 <= flo <= lo,
            hi <= fhi,
            fhi <= base.len(),
        ensures
            first_lacking(perms, lo, hi, Perms::WRITE) is None,
    {
        assert(has_perms(Perms::WRITE, Perms::WRITE)) by (bit_vector);
        lemma_first_lacking(perms, lo, hi, Perms::WRITE);
        if first_lacking(perms, lo, hi, Perms::WRITE) is Some {
            let i = first_lacking(perms, lo, hi, Perms::WRITE)->0;
            assert(perms[i] == Perms::WRITE);
        }
    }

    /// Under `read_defined`, a range that reaches past memory holds a byte without the requested
    /// permissions below the end of memory.
    proof fn lemma_range_cut(&self, lo: int, hi: int, p: u8)
        requires
            self.wf(),
            lo <= hi,
            hi <= self.memory@.len() || lacks_in(self.permissions@, lo, min_int(hi, self.memory@.len() as int), p),
        ensures
            hi <= self.memory@.len() || lacks_in(self.permissions@, lo, self.memory@.len() as int, p),
    {
    }

    /// A range without faults lies inside memory, and then the buffer has the size of the range.
    proof fn lemma_range_clear(&self, lo: int, hi: int, p: u8, buf_len: int, size: int)
        requires
            self.wf(),
            lo <= hi,
            hi == lo + size,
            hi <= usize::MAX,
            size <= buf_len,
            first_lacking(self.permissions@, lo, hi, p) is None,
            read_defined(self.memory@.len() as int, self.permissions@, lo, buf_len, size, p),
        ensures
            hi <= self.memory@.len(),
    {
        lemma_first_lacking(self.permissions@, lo, hi, p);
        if lacks_in(self.permissions@, lo, min_int(hi, self.memory@.len() as int), p) {
            let w = choose|j: int|
                lo <= j < min_int(hi, self.memory@.len() as int) && !has_perms(#[trigger] self.permissions@[j], p);
            assert(has_perms(self.permissions@[w], p));
        }
    }

    /// Set permissions at {addr} to {p} for {size} bytes
    fn set_permissions(&mut self, addr: usize, size: usize, p: u8) -> (r: Option<()>)
        requires
            old(self).wf(),
            size == 0 || addr + size > usize::MAX || addr + size <= old(self).memory@.len(),
        ensures
            final(self).wf(),
            r is None <==> (size != 0 && addr + size > usize::MAX),
            r is Some ==> final(self).permissions@ == fill(old(self).permissions@, addr as int, addr + size, p),
            r is None ==> final(self).permissions@ == old(self).permissions@,
            final(self).memory@ == old(self).memory@,
            final(self).dirty@ == old(self).dirty@,
            final(self).dirty_bitmap@ == old(self).dirty_bitmap@,
            final(self).dirty_size == old(self).dirty_size,
            final(self).alloc_cursor() == old(self).alloc_cursor(),
    {
        if size == 0 {
            assert(self.permissions@ =~= fill(old(self).permissions@, addr as int, addr + size, p));
            return Some(());
        }
        let end_addr = addr.checked_add(size)?;
        let mut i = addr;
        while i < end_addr
            invariant
                addr <= i <= end_addr,
                end_addr == addr + size,
                end_addr <= self.memory@.len(),
                self.memory@ == old(self).memory@,
                self.dirty@ == old(self).dirty@,
                self.dirty_bitmap@ == old(self).dirty_bitmap@,
                self.dirty_size == old(self).dirty_size,
                self.alloc_addr == old(self).alloc_addr,
                old(self).wf(),
                self.permissions@ == fill(old(self).permissions@, addr as int, i as int, p),
            decreases end_addr - i,
        {
            self.permissions[i] = p;
            assert(self.permissions@ =~= fill(old(self).permissions@, addr as int, i + 1, p));
            i = i + 1;
        }
        Some(())
    }
}

// ------------------------------------------------------------------------------------------------
// Laws of the memory management unit
// ------------------------------------------------------------------------------------------------

/// A fork holds the bytes and permissions of its original everywhere, since it has no dirty page.
pub proof fn lemma_fork_agrees(orig: Mmu, forked: Mmu)
    requires
        orig.wf(),
        fork_post(orig, forked),
    ensures
        agrees_outside_dirty(forked, orig),
{
}

/// A write keeps a unit in agreement with a snapshot outside its dirty pages: every byte it
/// changes lies in a page that it puts on the dirty list.
pub proof fn lemma_write_keeps_agreement(
    before: Mmu,
    snap: Mmu,
    addr: int,
    data: Seq<u8>,
    size: int,
    r: Result<(), Fault>,
    after: Mmu,
)
    requires
        before.wf(),
        0 <= addr,
        0 <= size,
        agrees_outside_dirty(before, snap),
        write_post(before, addr, data, size, r, after),
    ensures
        agrees_outside_dirty(after, snap),
{
    if r is Ok {
        assert forall|i: int|
            0 <= i < after.memory@.len() && !in_dirty_page(after.dirty@, i) implies after.memory@[i]
            == snap.memory@[i] && after.permissions@[i] == snap.permissions@[i] by {
            let pg = (i / 4096) as usize;
            if addr <= i < addr + size {
                lemma_div_is_ordered(addr, i, 4096);
                lemma_div_is_ordered(i, addr + size, 4096);
                assert(addr / 4096 <= pg < (addr + size) / 4096 + 1);
                assert(after.dirty@.contains(pg));
            }
            assert(!after.dirty@.contains(pg));
            assert(!before.dirty@.contains(pg));
            assert(!in_dirty_page(before.dirty@, i));
            assert(!(addr <= i < addr + size));
            assert(after.memory@[i] == before.memory@[i]);
        }
    }
}

/// Loading a segment keeps a unit in agreement with a snapshot outside its dirty pages.
pub proof fn lemma_load_keeps_agreement(
    before: Mmu,
    snap: Mmu,
    seg: ProgramHeader,
    data: Seq<u8>,
    r: Option<()>,
    after: Mmu,
)
    requires
        before.wf(),
        agrees_outside_dirty(before, snap),
        load_defined(before, seg, data.len() as int),
        load_post(before, seg, data, r, after),
        r is Some || seg.vaddr + seg.memsz > usize::MAX,
    ensures
        agrees_outside_dirty(after, snap),
{
    if r is Some {
        let lo = seg.vaddr as int;
        let hi = seg.vaddr + seg.memsz;
        assert forall|i: int|
            0 <= i < after.memory@.len() && !in_dirty_page(after.dirty@, i) implies after.memory@[i]
            == snap.memory@[i] && after.permissions@[i] == snap.permissions@[i] by {
            let pg = (i / 4096) as usize;
            if lo <= i < hi {
                lemma_div_is_ordered(lo, i, 4096);
                lemma_div_is_ordered(i, hi, 4096);
                assert(lo / 4096 <= pg < hi / 4096 + 1);
                assert(after.dirty@.contains(pg));
            }
            assert(!after.dirty@.contains(pg));
            assert(!before.dirty@.contains(pg));
            assert(!in_dirty_page(before.dirty@, i));
            assert(!(lo <= i < hi));
            assert(seg.filesz <= seg.memsz);
            assert(after.memory@[i] == before.memory@[i]);
        }
    }
}

/// Resetting a unit that agrees with a snapshot outside its dirty pages gives back exactly the
/// bytes and permissions of the snapshot.
pub proof fn lemma_reset_restores(before: Mmu, snap: Mmu, after: Mmu)
    requires
        agrees_outside_dirty(before, snap),
        reset_post(before, snap, after),
    ensures
        after.memory@ == snap.memory@,
        after.permissions@ == snap.permissions@,
        after.alloc_cursor() == snap.alloc_cursor(),
{
    assert(after.memory@ =~= snap.memory@);
    assert(after.permissions@ =~= snap.permissions@);
}

/// After a successful write, the written range holds the written bytes.
pub proof fn lemma_write_then_read(
    before: Mmu,
    addr: int,
    data: Seq<u8>,
    size: int,
    after: Mmu,
)
    requires
        write_post(before, addr, data, size, Ok(()), after),
        0 <= addr,
        0 <= size,
        addr + size <= before.memory@.len(),
    ensures
        after.memory@.subrange(addr, addr + size) == data.subrange(0, size),
{
    assert(after.memory@.subrange(addr, addr + size) =~= data.subrange(0, size));
}

/// Two successive allocations hand out disjoint chunks: the second chunk, with its size field,
/// starts above the end of the first.
pub proof fn lemma_alloc_disjoint(
    m0: Mmu,
    s1: int,
    p1: u8,
    b1: usize,
    m1: Mmu,
    s2: int,
    p2: u8,
    b2: usize,
    m2: Mmu,
)
    requires
        0 <= s1,
        alloc_post(m0, s1, p1, Some(b1), m1),
        alloc_post(m1, s2, p2, Some(b2), m2),
    ensures
        b1 + s1 < b2 - 8,
        b1 < b2,
{
}

/// A chunk handed out by `allocate` can be freed once; a second free of it is refused.
pub proof fn lemma_free_once(
    m0: Mmu,
    size: int,
    perms: u8,
    b: usize,
    m1: Mmu,
    r: Result<(), Fault>,
    m2: Mmu,
)
    requires
        m0.wf(),
        0 <= size,
        alloc_post(m0, size, perms, Some(b), m1),
        free_post(m1, b as int, r, m2),
    ensures
        r == Ok::<(), Fault>(()),
        free_outcome(m2, b as int) == Err::<(), Fault>(Fault::InvalidFree(b)),
{
    lemma_auto_spec_u64_to_from_le_bytes();
    let aligned = aligned_chunk(size);
    let tag = spec_u64_to_le_bytes(Perms::ISALLOC as u64);
    assert(tag.len() == 8);
    assert(m1.permissions@.subrange(b - 8, b as int) =~= tag);
    assert(m1.memory@.subrange(b - 8, b as int) =~= spec_u64_to_le_bytes(aligned as u64));
    assert(stored_size(m1.memory@, b as int) == aligned);
    let zeros = m2.permissions@.subrange(b - 8, b as int);
    assert(zeros =~= Seq::new(8, |i: int| 0u8));
    let x = spec_u64_from_le_bytes(zeros);
    assert(spec_u64_to_le_bytes(x) == zeros);
    spec_u64_to_le_bytes_to_open(x);
    if x == 8 {
        assert((8u64 & 0xff) as u8 == 8u8) by (bit_vector);
        assert(spec_u64_to_le_bytes_open(x)[0] == 8u8);
        assert(zeros[0] == 0u8);
    }
}

/// Loading a value stored with `write_to` gives the value back, for every type that guest memory
/// holds.
pub proof fn lemma_bytes_round_trip<T: ByteConversions>(x: T)
    ensures
        x.spec_to_bytes().len() == T::byte_size(),
        T::spec_from_bytes(x.spec_to_bytes()) == x,
{
    T::lemma_round_trip(x);
}


/// `ms` runs from `ms[0]` through the successful writes `ws`: each step is `write_mem` of
/// (address, data, size) returning `Ok`
pub open spec fn run_of_writes(ms: Seq<Mmu>, ws: Seq<(int, Seq<u8>, int)>) -> bool {
    &&& ms.len() == ws.len() + 1
    &&& forall|i: int| 0 <= i < ws.len() ==> {
        &&& (#[trigger] ms[i]).wf()
        &&& 0 <= ws[i].0
        &&& 0 <= ws[i].2
        &&& write_post(ms[i], ws[i].0, ws[i].1, ws[i].2, Ok(()), ms[i + 1])
    }
}

/// Agreement with the snapshot holds along a run of writes
proof fn lemma_run_agrees(orig: Mmu, ms: Seq<Mmu>, ws: Seq<(int, Seq<u8>, int)>, k: int)
    requires
        orig.wf(),
        fork_post(orig, ms[0]),
        run_of_writes(ms, ws),
        0 <= k < ms.len(),
    ensures
        agrees_outside_dirty(ms[k], orig),
    decreases k,
{
    if k == 0 {
        lemma_fork_agrees(orig, ms[0]);
    } else {
        lemma_run_agrees(orig, ms, ws, k - 1);
        let j = k - 1;
        assert(ms[j].wf());
        lemma_write_keeps_agreement(ms[j], orig, ws[j].0, ws[j].1, ws[j].2, Ok(()), ms[j + 1]);
    }
}

/// No bit of a zero word is set
proof fn lemma_zero_word_unmarked(bm: Seq<u64>, b: int)
    requires
        0 <= b,
        bm[b / 64] == 0,
    ensures
        !page_marked(bm, b),
{
    let sh = (b % 64) as u64;
    assert((0u64 >> sh) & 1u64 == 0u64) by (bit_vector);
}

/// Along a run of successful writes from a fork, every bit set in the dirty bitmap belongs to
/// a page on the dirty list, and where each write ends inside memory (whose size is a whole
/// number of pages) every page on the dirty list lies inside memory
proof fn lemma_run_tracks_pages(orig: Mmu, ms: Seq<Mmu>, ws: Seq<(int, Seq<u8>, int)>, k: int)
    requires
        orig.wf(),
        fork_post(orig, ms[0]),
        run_of_writes(ms, ws),
        0 <= k < ms.len(),
    ensures
        ms[k].dirty_bitmap@.len() == ms[0].dirty_bitmap@.len(),
        forall|b: int|
            0 <= b < 64 * ms[k].dirty_bitmap@.len() && #[trigger] page_marked(ms[k].dirty_bitmap@, b)
                ==> ms[k].dirty@.contains(b as usize),
        orig.memory@.len() % 4096 == 0 && (forall|i: int| 0 <= i < ws.len() ==> (#[trigger] ws[i]).0 + ws[i].2
            < orig.memory@.len()) ==> forall|d: usize|
            #[trigger] ms[k].dirty@.contains(d) ==> (d + 1) * 4096 <= orig.memory@.len(),
    decreases k,
{
    if k == 0 {
        assert forall|b: int|
            0 <= b < 64 * ms[0].dirty_bitmap@.len() && #[trigger] page_marked(ms[0].dirty_bitmap@, b)
                implies ms[0].dirty@.contains(b as usize) by {
            lemma_zero_word_unmarked(ms[0].dirty_bitmap@, b);
        }
    } else {
        let j = k - 1;
        lemma_run_tracks_pages(orig, ms, ws, j);
        assert(ms[j].wf());
        let (a, d, sz) = ws[j];
        assert(write_post(ms[j], a, d, sz, Ok(()), ms[j + 1]));
        let lo = a / 4096;
        let hi = (a + sz) / 4096 + 1;
        assert forall|b: int|
            0 <= b < 64 * ms[k].dirty_bitmap@.len() && #[trigger] page_marked(ms[k].dirty_bitmap@, b)
                implies ms[k].dirty@.contains(b as usize) by {
            assert(page_marked(ms[j].dirty_bitmap@, b) || (lo <= b < hi));
            if page_marked(ms[j].dirty_bitmap@, b) {
                assert(ms[j].dirty@.contains(b as usize));
            }
        }
        if orig.memory@.len() % 4096 == 0 && (forall|i: int| 0 <= i < ws.len() ==> (#[trigger] ws[i]).0 + ws[i].2
            < orig.memory@.len()) {
            let len = orig.memory@.len() as int;
            assert(a + sz < len) by {
                assert(ws[j].0 + ws[j].2 < len);
            }
            assert forall|p: usize| #[trigger] ms[k].dirty@.contains(p) implies (p + 1) * 4096 <= len by {
                if !ms[j].dirty@.contains(p) {
                    assert(lo <= p < hi);
                    assert((p + 1) * 4096 <= len) by (nonlinear_arith)
                        requires
                            p < (a + sz) / 4096 + 1,
                            0 <= a + sz < len,
                            len % 4096 == 0,
                    ;
                }
            }
        }
    }
}

/// A run of successful writes from a fork, each ending inside memory (whose size is a whole
/// number of pages), leaves a unit that can be reset to the original: every page on its dirty
/// list lies inside both units.
pub proof fn lemma_writes_reset_defined(orig: Mmu, ms: Seq<Mmu>, ws: Seq<(int, Seq<u8>, int)>)
    requires
        orig.wf(),
        fork_post(orig, ms[0]),
        run_of_writes(ms, ws),
        orig.memory@.len() % 4096 == 0,
        forall|i: int| 0 <= i < ws.len() ==> (#[trigger] ws[i]).0 + ws[i].2 < orig.memory@.len(),
    ensures
        reset_defined(ms.last(), orig),
{
    lemma_run_tracks_pages(orig, ms, ws, ms.len() - 1);
    lemma_run_agrees(orig, ms, ws, ms.len() - 1);
    let last = ms.last();
    assert forall|k: int| 0 <= k < last.dirty@.len() implies (last.dirty@[k] + 1) * 4096 <= last.memory@.len() && (
    last.dirty@[k] + 1) * 4096 <= orig.memory@.len() by {
        assert(last.dirty@.contains(last.dirty@[k]));
    }
}

/// Resetting a fork after any run of successful writes gives back the original exactly: its
/// bytes, permissions and heap cursor, with no dirty page left and no bit of the dirty bitmap
/// set.
pub proof fn lemma_reset_after_writes(orig: Mmu, ms: Seq<Mmu>, ws: Seq<(int, Seq<u8>, int)>, after: Mmu)
    requires
        orig.wf(),
        fork_post(orig, ms[0]),
        run_of_writes(ms, ws),
        reset_post(ms.last(), orig, after),
    ensures
        after.memory@ == orig.memory@,
        after.permissions@ == orig.permissions@,
        after.alloc_cursor() == orig.alloc_cursor(),
        after.dirty@.len() == 0,
        after.dirty_size == 0,
        forall|b: int| 0 <= b < 64 * after.dirty_bitmap@.len() ==> !#[trigger] page_marked(after.dirty_bitmap@, b),
{
    let last = ms.last();
    lemma_run_agrees(orig, ms, ws, ms.len() - 1);
    lemma_run_tracks_pages(orig, ms, ws, ms.len() - 1);
    lemma_reset_restores(last, orig, after);
    assert forall|b: int| 0 <= b < 64 * after.dirty_bitmap@.len() implies !#[trigger] page_marked(after.dirty_bitmap@, b) by {
        let w = b / 64;
        if word_covered(last.dirty@, last.dirty@.len() as int, w) {
            assert(after.dirty_bitmap@[w] == 0u64);
            lemma_zero_word_unmarked(after.dirty_bitmap@, b);
        } else {
            assert(after.dirty_bitmap@[w] == last.dirty_bitmap@[w]);
            if page_marked(last.dirty_bitmap@, b) {
                assert(last.dirty@.contains(b as usize));
                let m = choose|m: int| 0 <= m < last.dirty@.len() && last.dirty@[m] == b as usize;
                assert(last.dirty@[m] / 64 == w);
            }
        }
    }
}

/// A write or a free leaves the heap cursor alone
pub open spec fn write_or_free(old: Mmu, new: Mmu) -> bool {
    ||| exists|a: int, d: Seq<u8>, s: int, r: Result<(), Fault>| #[trigger] write_post(old, a, d, s, r, new)
    ||| exists|a: int, r: Result<(), Fault>| #[trigger] free_post(old, a, r, new)
}

proof fn lemma_run_keeps_cursor(ms: Seq<Mmu>, k: int)
    requires
        forall|i: int| 0 <= i < ms.len() - 1 ==> write_or_free(#[trigger] ms[i], ms[i + 1]),
        0 <= k < ms.len(),
    ensures
        ms[k].alloc_cursor() == ms[0].alloc_cursor(),
    decreases k,
{
    if k > 0 {
        lemma_run_keeps_cursor(ms, k - 1);
        let j = k - 1;
        assert(write_or_free(ms[j], ms[j + 1]));
    }
}

/// Memory is never handed out twice: after an allocation, any run of writes and frees, and a
/// second allocation, the second chunk starts right after the first one's (aligned) end, above
/// all of its bytes, and holds the requested permissions.
pub proof fn lemma_alloc_fresh(
    m0: Mmu,
    s1: int,
    p1: u8,
    a1: usize,
    ms: Seq<Mmu>,
    s2: int,
    p2: u8,
    a2: usize,
    m3: Mmu,
)
    requires
        0 <= s1,
        0 <= s2,
        ms.len() > 0,
        alloc_post(m0, s1, p1, Some(a1), ms[0]),
        forall|i: int| 0 <= i < ms.len() - 1 ==> write_or_free(#[trigger] ms[i], ms[i + 1]),
        ms.last().wf(),
        alloc_post(ms.last(), s2, p2, Some(a2), m3),
    ensures
        a2 == a1 + aligned_chunk(s1),
        a1 + s1 < a2 - 8,
        forall|i: int| a2 <= i < a2 + s2 ==> #[trigger] m3.permissions@[i] == p2,
{
    lemma_run_keeps_cursor(ms, ms.len() - 1);
    lemma_auto_spec_u64_to_from_le_bytes();
    let last = ms.last();
    assert((s2 + 0x18) % 16 < 16);
    assert(aligned_chunk(s2) > s2);
    let filled = fill(last.permissions@, a2 as int, a2 + s2, p2);
    let tag = spec_u64_to_le_bytes(Perms::ISALLOC as u64);
    assert(tag.len() == 8);
    assert(m3.permissions@ == splice(filled, a2 - 8, tag));
    assert forall|i: int| a2 <= i < a2 + s2 implies #[trigger] m3.permissions@[i] == p2 by {
        assert(i < last.permissions@.len());
        assert(filled[i] == p2);
    }
}


/// `new` follows `old` by a call of `write_mem`, answered with some result
pub open spec fn write_step(old: Mmu, new: Mmu) -> bool {
    exists|a: int, d: Seq<u8>, sz: int, r: Result<(), Fault>| 0 <= a && 0 <= sz && #[trigger] write_post(old, a, d, sz, r, new)
}

/// `new` follows `old` by a call of `allocate`, answered with some result
pub open spec fn alloc_step(old: Mmu, new: Mmu) -> bool {
    exists|sz: int, p: u8, r: Option<usize>| 0 <= sz && #[trigger] alloc_post(old, sz, p, r, new)
}

/// `ms` runs through calls of `write_mem` and `allocate`, each answered with some result
pub open spec fn run_of_writes_and_allocs(ms: Seq<Mmu>) -> bool {
    forall|i: int| 0 <= i < ms.len() - 1 ==> write_step(#[trigger] ms[i], ms[i + 1]) || alloc_step(ms[i], ms[i + 1])
}

/// Writes and allocations keep the permissions below the heap cursor, and the bytes there that
/// no permission lets a write change; the cursor only grows
proof fn lemma_run_keeps_header(ms: Seq<Mmu>, lo: int, hi: int, k: int)
    requires
        ms.len() > 0,
        run_of_writes_and_allocs(ms),
        0 <= lo <= hi <= ms[0].memory@.len(),
        ms[0].permissions@.len() == ms[0].memory@.len(),
        hi <= ms[0].alloc_cursor(),
        forall|j: int| lo <= j < hi ==> !has_perms(#[trigger] ms[0].permissions@[j], Perms::WRITE),
        0 <= k < ms.len(),
    ensures
        ms[k].alloc_cursor() >= ms[0].alloc_cursor(),
        ms[k].memory@.len() == ms[0].memory@.len(),
        ms[k].permissions@.len() == ms[0].permissions@.len(),
        ms[k].permissions@.subrange(lo, hi) == ms[0].permissions@.subrange(lo, hi),
        ms[k].memory@.subrange(lo, hi) == ms[0].memory@.subrange(lo, hi),
    decreases k,
{
    if k > 0 {
        lemma_run_keeps_header(ms, lo, hi, k - 1);
        let j = k - 1;
        assert forall|x: int| lo <= x < hi implies ms[j].permissions@[x] == ms[0].permissions@[x] by {
            assert(ms[j].permissions@.subrange(lo, hi)[x - lo] == ms[0].permissions@.subrange(lo, hi)[x - lo]);
        }
        if write_step(ms[j], ms[j + 1]) {
            let (a, d, sz, r) = choose|a: int, d: Seq<u8>, sz: int, r: Result<(), Fault>|
                0 <= a && 0 <= sz && #[trigger] write_post(ms[j], a, d, sz, r, ms[j + 1]);
            if r is Ok {
                lemma_first_lacking(ms[j].permissions@, a, a + sz, Perms::WRITE);
                assert forall|x: int| lo <= x < hi implies ms[k].memory@[x] == ms[j].memory@[x] by {
                    if a <= x < a + sz {
                        assert(has_perms(ms[j].permissions@[x], Perms::WRITE));
                        assert(!has_perms(ms[0].permissions@[x], Perms::WRITE));
                    }
                }
                assert(ms[k].memory@.subrange(lo, hi) =~= ms[j].memory@.subrange(lo, hi));
            }
        } else {
            assert(alloc_step(ms[j], ms[j + 1]));
            let (sz, p, r) = choose|sz: int, p: u8, r: Option<usize>| 0 <= sz && #[trigger] alloc_post(ms[j], sz, p, r, ms[j + 1]);
            if r is Some {
                lemma_auto_spec_u64_to_from_le_bytes();
                assert(ms[k].memory@.subrange(lo, hi) =~= ms[j].memory@.subrange(lo, hi));
                assert(ms[k].permissions@.subrange(lo, hi) =~= ms[j].permissions@.subrange(lo, hi));
                assert((sz + 0x18) % 16 < 16);
            }
        }
    }
}

/// A chunk handed out by `allocate` stays freeable through any run of writes and further
/// allocations: the free succeeds, unsets the whole chunk with its size field, and a second free
/// of it is refused.
pub proof fn lemma_free_once_after_writes(
    m0: Mmu,
    size: int,
    perms: u8,
    b: usize,
    ms: Seq<Mmu>,
    r: Result<(), Fault>,
    m2: Mmu,
)
    requires
        m0.wf(),
        0 <= size,
        ms.len() > 0,
        alloc_post(m0, size, perms, Some(b), ms[0]),
        run_of_writes_and_allocs(ms),
        free_post(ms.last(), b as int, r, m2),
    ensures
        r == Ok::<(), Fault>(()),
        forall|i: int| b - 8 <= i < b - 8 + aligned_chunk(size) ==> #[trigger] m2.permissions@[i] == Perms::UNSET,
        free_outcome(m2, b as int) == Err::<(), Fault>(Fault::InvalidFree(b)),
{
    lemma_auto_spec_u64_to_from_le_bytes();
    let m1 = ms[0];
    let last = ms.last();
    let aligned = aligned_chunk(size);
    assert((size + 0x18) % 16 < 16);
    let tag = spec_u64_to_le_bytes(Perms::ISALLOC as u64);
    assert(tag.len() == 8);
    assert(m1.permissions@.subrange(b - 8, b as int) =~= tag);
    spec_u64_to_le_bytes_to_open(Perms::ISALLOC as u64);
    assert forall|j: int| b - 8 <= j < b implies !has_perms(#[trigger] m1.permissions@[j], Perms::WRITE) by {
        let t = m1.permissions@[j];
        assert(t == tag[j - (b - 8)]);
        assert((8u64 & 0xff) as u8 == 8u8 && ((8u64 >> 8u64) & 0xff) as u8 == 0u8 && ((8u64 >> 16u64) & 0xff) as u8
            == 0u8 && ((8u64 >> 24u64) & 0xff) as u8 == 0u8 && ((8u64 >> 32u64) & 0xff) as u8 == 0u8 && ((8u64
            >> 40u64) & 0xff) as u8 == 0u8 && ((8u64 >> 48u64) & 0xff) as u8 == 0u8 && ((8u64 >> 56u64) & 0xff) as u8
            == 0u8 && 8u8 & 2u8 != 2u8 && 0u8 & 2u8 != 2u8) by (bit_vector);
        assert(t == 8u8 || t == 0u8);
    }
    lemma_run_keeps_header(ms, b - 8, b as int, ms.len() - 1);
    assert(m1.memory@.subrange(b - 8, b as int) =~= spec_u64_to_le_bytes(aligned as u64));
    assert(last.memory@.subrange(b - 8, b as int) == m1.memory@.subrange(b - 8, b as int));
    assert(stored_size(last.memory@, b as int) == aligned);
    assert(last.permissions@.subrange(b - 8, b as int) == tag);
    assert(free_outcome(last, b as int) == Ok::<(), Fault>(()));
    let zeros = m2.permissions@.subrange(b - 8, b as int);
    assert(zeros =~= Seq::new(8, |i: int| 0u8));
    let x = spec_u64_from_le_bytes(zeros);
    assert(spec_u64_to_le_bytes(x) == zeros);
    spec_u64_to_le_bytes_to_open(x);
    if x == 8 {
        assert((8u64 & 0xff) as u8 == 8u8) by (bit_vector);
        assert(spec_u64_to_le_bytes_open(x)[0] == 8u8);
        assert(zeros[0] == 0u8);
    }
}

} // verus!
