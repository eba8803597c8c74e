//! Text of a register trace of JIT execution, laid out like gdb's `info registers`, so that a
//! trace of the same program under gdb and qemu can be compared line by line.
use vstd::prelude::*;
use vstd::string::StringExecFns;

use crate::ir_display::hex_digits;

verus! {

/// Number of words that one traced step takes: an unused word, then the 31 general registers
/// from `ra` to `t6`, then the program counter
pub const TRACE_ENTRY_WORDS: usize = 33;

/// Name of the `k`-th register of a traced step, in gdb's order
pub open spec fn trace_name(k: int) -> Seq<char> {
    if k == 0 { "ra"@ }
    else if k == 1 { "sp"@ }
    else if k == 2 { "gp"@ }
    else if k == 3 { "tp"@ }
    else if k == 4 { "t0"@ }
    else if k == 5 { "t1"@ }
    else if k == 6 { "t2"@ }
    else if k == 7 { "fp"@ }
    else if k == 8 { "s1"@ }
    else if k == 9 { "a0"@ }
    else if k == 10 { "a1"@ }
    else if k == 11 { "a2"@ }
    else if k == 12 { "a3"@ }
    else if k == 13 { "a4"@ }
    else if k == 14 { "a5"@ }
    else if k == 15 { "a6"@ }
    else if k == 16 { "a7"@ }
    else if k == 17 { "s2"@ }
    else if k == 18 { "s3"@ }
    else if k == 19 { "s4"@ }
    else if k == 20 { "s5"@ }
    else if k == 21 { "s6"@ }
    else if k == 22 { "s7"@ }
    else if k == 23 { "s8"@ }
    else if k == 24 { "s9"@ }
    else if k == 25 { "s10"@ }
    else if k == 26 { "s11"@ }
    else if k == 27 { "t3"@ }
    else if k == 28 { "t4"@ }
    else if k == 29 { "t5"@ }
    else if k == 30 { "t6"@ }
    else { "pc"@ }
}

/// The line of the `k`-th register of the step that starts at word `i`: its name, ` 0x` and its
/// value in lower-case hexadecimal
pub open spec fn reg_line(arr: Seq<u64>, i: int, k: int) -> Seq<char> {
    trace_name(k) + " 0x"@ + hex_digits(arr[i + 1 + k] as nat, false)
}

/// The first `m` register lines of the step that starts at word `i`, each ended by a newline
pub open spec fn step_lines(arr: Seq<u64>, i: int, m: nat) -> Seq<char>
    decreases m,
{
    if m == 0 {
        Seq::empty()
    } else {
        step_lines(arr, i, (m - 1) as nat) + reg_line(arr, i, m - 1) + "\n"@
    }
}

/// The text of one traced step: its 32 register lines, each ended by a newline
pub open spec fn step_text(arr: Seq<u64>, i: int) -> Seq<char> {
    step_lines(arr, i, 32)
}

/// The text of the first `n` steps: their texts, each after the first preceded by a blank line
pub open spec fn trace_text_of(arr: Seq<u64>, n: nat) -> Seq<char>
    decreases n,
{
    if n == 0 {
        Seq::empty()
    } else if n == 1 {
        step_text(arr, 0)
    } else {
        trace_text_of(arr, (n - 1) as nat) + "\n"@ + step_text(arr, 33 * (n - 1))
    }
}

/// How many steps a trace of `len` words starts: one at each multiple of 33 below `len`
pub open spec fn step_count(len: int) -> int {
    (len + 32) / 33
}

/// `format!("{:x}", v)` of std: the lower-case hexadecimal digits of `v`.
#[verifier::external_body]
fn hex_u64(v: u64) -> (r: String)
    ensures
        r@ == hex_digits(v as nat, false),
{
    format!("{:x}", v)
}

/// Name of the `k`-th register of a traced step
fn trace_reg_name(k: usize) -> (r: &'static str)
    requires
        k < 32,
    ensures
        r@ == trace_name(k as int),
{
    match k {
        0 => "ra",
        1 => "sp",
        2 => "gp",
        3 => "tp",
        4 => "t0",
        5 => "t1",
        6 => "t2",
        7 => "fp",
        8 => "s1",
        9 => "a0",
        10 => "a1",
        11 => "a2",
        12 => "a3",
        13 => "a4",
        14 => "a5",
        15 => "a6",
        16 => "a7",
        17 => "s2",
        18 => "s3",
        19 => "s4",
        20 => "s5",
        21 => "s6",
        22 => "s7",
        23 => "s8",
        24 => "s9",
        25 => "s10",
        26 => "s11",
        27 => "t3",
        28 => "t4",
        29 => "t5",
        30 => "t6",
        _ => "pc",
    }
}

/// Append the text of the step that starts at word `i` to `s`
fn push_step(s: &mut String, arr: &[u64], i: usize)
    requires
        i + TRACE_ENTRY_WORDS <= arr@.len(),
    ensures
        final(s)@ == old(s)@ + step_text(arr@, i as int),
{
    let len = arr.len();
    let mut k: usize = 0;
    while k < 32
        invariant
            k <= 32,
            len == arr@.len(),
            i + TRACE_ENTRY_WORDS <= arr@.len(),
            s@ == old(s)@ + step_lines(arr@, i as int, k as nat),
        decreases 32 - k,
    {
        let v = arr[i + 1 + k];
        s.append(trace_reg_name(k));
        s.append(" 0x");
        s.append(hex_u64(v).as_str());
        s.append("\n");
        assert(s@ == old(s)@ + step_lines(arr@, i as int, (k + 1) as nat));
        k = k + 1;
    }
}

/// The text of the trace in the first `trace_arr_len` words of `trace_arr`, or `None` where it
/// holds no step. A step starts at each multiple of 33 below `trace_arr_len`, and each must lie
/// in `trace_arr`.
pub fn trace_text(trace_arr: &[u64], trace_arr_len: usize) -> (r: Option<String>)
    requires
        step_count(trace_arr_len as int) * 33 <= trace_arr@.len(),
    ensures
        trace_arr_len == 0 ==> r is None,
        trace_arr_len > 0 ==> (r matches Some(t) && t@ == trace_text_of(
            trace_arr@,
            step_count(trace_arr_len as int) as nat,
        )),
{
    if trace_arr_len == 0 {
        return None;
    }
    let len = trace_arr.len();
    let mut s = String::new();
    push_step(&mut s, trace_arr, 0);
    let mut i: usize = TRACE_ENTRY_WORDS;
    let mut n: usize = 1;
    while i < trace_arr_len
        invariant
            0 < trace_arr_len,
            len == trace_arr@.len(),
            step_count(trace_arr_len as int) * 33 <= trace_arr@.len(),
            i == 33 * n,
            1 <= n <= step_count(trace_arr_len as int),
            s@ == trace_text_of(trace_arr@, n as nat),
        decreases step_count(trace_arr_len as int) - n,
    {
        assert(n + 1 <= step_count(trace_arr_len as int));
        s.append("\n");
        push_step(&mut s, trace_arr, i);
        i = i + TRACE_ENTRY_WORDS;
        n = n + 1;
    }
    assert(n == step_count(trace_arr_len as int));
    Some(s)
}

} // verus!
