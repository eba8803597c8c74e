use sfuzz::trace::trace_text;

const NAMES: [&str; 32] = [
    "ra", "sp", "gp", "tp", "t0", "t1", "t2", "fp", "s1", "a0", "a1", "a2", "a3", "a4", "a5", "a6",
    "a7", "s2", "s3", "s4", "s5", "s6", "s7", "s8", "s9", "s10", "s11", "t3", "t4", "t5", "t6", "pc",
];

fn expected_step(words: &[u64]) -> String {
    let mut s = String::new();
    for k in 0..32 {
        s.push_str(&format!("{} 0x{:x}\n", NAMES[k], words[1 + k]));
    }
    s
}

#[test]
fn empty_trace_has_no_text() {
    assert_eq!(trace_text(&[], 0), None);
    assert_eq!(trace_text(&[1u64; 66], 0), None);
}

#[test]
fn one_step_lists_registers_in_gdb_order() {
    let words: Vec<u64> = (0..33u64).map(|w| w * 0x11).collect();
    let text = trace_text(&words, 33).unwrap();
    assert_eq!(text, expected_step(&words));
    assert!(text.starts_with("ra 0x11\nsp 0x22\n"));
    assert!(text.ends_with("t6 0x20f\npc 0x220\n"));
    assert_eq!(text.lines().count(), 32);
}

#[test]
fn hex_is_lower_case_without_padding() {
    let mut words = vec![0u64; 33];
    words[1] = 0xDEAD_BEEF;
    words[32] = u64::MAX;
    let text = trace_text(&words, 33).unwrap();
    assert!(text.starts_with("ra 0xdeadbeef\nsp 0x0\n"));
    assert!(text.ends_with("pc 0xffffffffffffffff\n"));
}

#[test]
fn steps_are_separated_by_a_blank_line() {
    let words: Vec<u64> = (0..66u64).collect();
    let text = trace_text(&words, 66).unwrap();
    let expected = format!("{}\n{}", expected_step(&words[..33]), expected_step(&words[33..]));
    assert_eq!(text, expected);
    assert!(text.contains("pc 0x20\n\nra 0x22\n"));
}

#[test]
fn partial_last_step_is_still_printed() {
    // A length that is not a multiple of 33 still starts a step at each multiple below it
    let words: Vec<u64> = (0..66u64).map(|w| w + 100).collect();
    assert_eq!(trace_text(&words, 34), trace_text(&words, 66));
    assert_eq!(trace_text(&words, 1), trace_text(&words, 33));
}
