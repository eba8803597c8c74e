use std::collections::HashMap;

use sfuzz::hooks::{find_symbol, hook_sites, replace_lib_functions, HookSites};
use sfuzz::jit::LibFuncs;

fn syms(list: &[(&str, usize)]) -> Vec<(String, usize)> {
    list.iter().map(|(n, a)| (n.to_string(), *a)).collect()
}

#[test]
fn find_symbol_takes_the_last_occurrence() {
    let s = syms(&[("main", 0x100), ("strlen", 0x200), ("main", 0x300)]);
    assert_eq!(find_symbol(&s, "main"), Some(0x300));
    assert_eq!(find_symbol(&s, "strlen"), Some(0x200));
    assert_eq!(find_symbol(&s, "strcmp"), None);
    assert_eq!(find_symbol(&s, "mai"), None);
    assert_eq!(find_symbol(&Vec::new(), "main"), None);
}

#[test]
fn hook_sites_names_each_hooked_function() {
    let s = syms(&[
        ("_malloc_r", 0x1000),
        ("_free_r", 0x2000),
        ("strcmp", 0x3000),
        ("malloc", 0x4000),
    ]);
    let sites = hook_sites(&s);
    assert_eq!(
        sites,
        HookSites { free: Some(0x2000), malloc: Some(0x1000), calloc: None, strlen: None, strcmp: Some(0x3000) }
    );
}

#[test]
fn replace_lib_functions_maps_present_functions() {
    let sites = HookSites { free: None, malloc: None, calloc: None, strlen: Some(0x10), strcmp: None };
    let mut lib: HashMap<usize, LibFuncs> = HashMap::new();
    replace_lib_functions(&mut lib, &sites);
    assert_eq!(lib.len(), 1);
    assert!(matches!(lib.get(&0x10), Some(LibFuncs::STRLEN)));

    // A symbol that names both functions ends up with the one entered last
    let both = HookSites { free: None, malloc: None, calloc: None, strlen: Some(0x20), strcmp: Some(0x20) };
    replace_lib_functions(&mut lib, &both);
    assert_eq!(lib.len(), 2);
    assert!(matches!(lib.get(&0x20), Some(LibFuncs::STRCMP)));
}
