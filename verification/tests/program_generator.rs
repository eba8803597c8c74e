use sfuzz::program_generator::{
    halves_of, num_of, range_of, Block, Compiler, Expr, Function, Index, Operation, Program, Rng, Type, Value, COMPLEXITY, INPUT_SIZE,
    MAX_ALLOC_SIZE, MAX_STRING_LEN, MIN_ALLOC_SIZE,
};

fn count_ifs(b: &Block) -> usize {
    b.stmt_list.iter().map(|op| match op {
        Operation::If(_, inner) => 1 + count_ifs(inner),
        _ => 0,
    }).sum()
}

fn check_block(b: &Block, depth: usize, earlier: &[String]) {
    if b.stmt_list.len() == 1 && b.variables.is_empty() {
        assert!(depth >= 1);
        match &b.stmt_list[0] {
            Operation::Crash(_) => {},
            Operation::CallFunc(n, Type::Void, args) => {
                assert!(args.is_empty());
                assert!(earlier.contains(n));
            },
            other => panic!("unexpected terminator {:?}", other),
        }
        return;
    }
    let nv = b.variables.len();
    assert!((2..=4).contains(&nv));
    assert!(b.stmt_list.len() >= nv + 5 && b.stmt_list.len() <= nv + 9);
    for (i, op) in b.stmt_list.iter().enumerate() {
        if i < nv {
            match op {
                Operation::AddInts(Type::Number, name, Index(idx), c) | Operation::SubInts(Type::Number, name, Index(idx), c) => {
                    assert_eq!(name.len(), 15);
                    assert!(name.bytes().all(|b| b.is_ascii_lowercase()));
                    assert_eq!(&b.variables[i].0, name);
                    assert!(*idx < INPUT_SIZE);
                    assert!(*c >= MIN_ALLOC_SIZE && *c < MAX_ALLOC_SIZE);
                },
                other => panic!("unexpected simple op {:?}", other),
            }
        } else {
            match op {
                Operation::If(e, inner) => {
                    match e {
                        Expr::StrCmp(Index(i), Value::StringLiteral(s)) => {
                            assert!(*i < INPUT_SIZE - MAX_STRING_LEN);
                            assert_eq!(s.len(), 15);
                        },
                        Expr::ByteCmp(Index(i), _) | Expr::WordCmp(Index(i), _) | Expr::DWordCmp(Index(i), _)
                        | Expr::QWordCmp(Index(i), _) => assert!(*i < INPUT_SIZE),
                        Expr::VarByteCmp(Index(i), v) | Expr::VarWordCmp(Index(i), v) | Expr::VarDWordCmp(Index(i), v)
                        | Expr::VarQWordCmp(Index(i), v) => {
                            assert!(*i < INPUT_SIZE);
                            assert!(b.variables.iter().any(|(n, t)| n == v && *t == Type::Number));
                        },
                        other => panic!("unexpected comparison {:?}", other),
                    }
                    check_block(inner, depth + 1, earlier);
                },
                other => panic!("unexpected complex op {:?}", other),
            }
        }
    }
}

#[test]
fn random_ranges() {
    let mut rng = Rng::new(1234);
    for _ in 0..1000 {
        assert!(rng.next_num(7) < 7);
        let v = rng.gen_range(10, 20);
        assert!((10..20).contains(&v));
        let (a, b) = rng.get2_rand();
        assert!(a <= 0xffff_ffff && b <= 0xffff_ffff);
    }
    assert_eq!(rng.next_num(0), 0);
    assert_eq!(rng.gen_range(5, 5), 5);
    let s = rng.next_string(16, 0x61, 0x7b);
    assert_eq!(s.len(), 15);
    assert!(s.iter().all(|b| (0x61..0x7b).contains(b)));
}

#[test]
fn generated_program_shape() {
    let mut rng = Rng::new(42);
    let p = Program::create_program(&mut rng);
    assert_eq!(p.function_list.len(), COMPLEXITY + 1);
    let mut earlier: Vec<String> = Vec::new();
    for (i, f) in p.function_list.iter().take(COMPLEXITY).enumerate() {
        assert_eq!(f.name, format!("func_{}", i + 1));
        assert_eq!(f.typ, Type::Void);
        assert_eq!(f.arguments.len(), 1);
        check_block(&f.body, 0, &earlier);
        earlier.push(f.name.clone());
    }
    let main = &p.function_list[COMPLEXITY];
    assert_eq!(main.name, "main");
    assert_eq!(main.body.stmt_list.len(), 4 + COMPLEXITY);
    assert!(matches!(main.body.stmt_list[0], Operation::ArgvCheck));
    assert!(matches!(main.body.stmt_list[3], Operation::ReadFile));
    for i in 0..COMPLEXITY {
        match &main.body.stmt_list[4 + i] {
            Operation::CallFunc(n, _, args) => {
                assert_eq!(*n, format!("func_{}", i + 1));
                assert_eq!(*args, vec![Type::Buffer]);
            },
            other => panic!("unexpected statement in main {:?}", other),
        }
    }
    assert!(count_ifs(&p.function_list[0].body) >= 5);
}

#[test]
fn texts_of_values_expressions_and_operations() {
    assert_eq!(Value::Number(17).text(), "17");
    assert_eq!(Value::StringLiteral("abc".to_string()).text(), "\"abc\"");
    assert_eq!(Expr::ByteCmp(Index(3), 200).text(), "buf[3] == 200");
    assert_eq!(Expr::WordCmp(Index(4), 513).text(), "*(unsigned short*)(buf + 4) == 513");
    assert_eq!(Expr::DWordCmp(Index(5), 7).text(), "*(unsigned long*)(buf + 5) == 7ULL");
    assert_eq!(Expr::QWordCmp(Index(6), 8).text(), "*(unsigned int*)(buf + 6) == 8U");
    assert_eq!(Expr::VarByteCmp(Index(9), "x".to_string()).text(), "buf[9] == x");
    assert_eq!(Expr::StrCmp(Index(1), Value::StringLiteral("ab".to_string())).text(), "!strcmp(&buf[1], \"ab\")");
    assert_eq!(Operation::AddInts(Type::Number, "v".to_string(), Index(2), 0x30).text(), "int v = buf[2] + 48");
    assert_eq!(Operation::SubInts(Type::Number, "w".to_string(), Index(2), 32).text(), "int w = buf[2] - 32");
    assert_eq!(Operation::Crash(0xdead).text(), "*(unsigned long*)0xdead = 0");
    assert_eq!(Operation::AllocInputBuf.text(), "unsigned char *buf = malloc(500)");
    assert_eq!(Operation::ReadFile.text(), "fgets(buf, 500, fd)");
    assert_eq!(Operation::CallFunc("func_2".to_string(), Type::Void, Vec::new()).text(), "func_2(buf)");
    assert_eq!(Type::Str.text(), "unsigned char *");
}

#[test]
fn translation_of_a_small_program() {
    let inner = Block { stmt_list: vec![Operation::Crash(0x10)], variables: Vec::new() };
    let body = Block {
        stmt_list: vec![
            Operation::AddInts(Type::Number, "a".to_string(), Index(1), 40),
            Operation::If(Expr::VarByteCmp(Index(2), "a".to_string()), inner),
        ],
        variables: vec![("a".to_string(), Type::Number)],
    };
    let f = Function {
        name: "func_1".to_string(),
        typ: Type::Void,
        arguments: vec![(Type::Buffer, "buf".to_string())],
        body,
    };
    let main = Function {
        name: "main".to_string(),
        typ: Type::Void,
        arguments: vec![(Type::Number, "argc".to_string()), (Type::Argv, "argv".to_string())],
        body: Block { stmt_list: vec![Operation::ArgvCheck], variables: Vec::new() },
    };
    let mut c = Compiler::new(Program { function_list: vec![f, main] });
    c.translate_program();
    let expected = "#include <stdio.h>\n#include <stdlib.h>\n#include <string.h>\n\nchar *buf;\n\n\
void func_1(unsigned char* buf)\n{\n    int a = buf[1] + 40;\n    if (buf[2] == a) \n    {\n        \
*(unsigned long*)0x10 = 0;\n    }\n\n}\n\n\
void main(int argc, char **argv)\n{\n    if (argc != 2) return;\n}\n\n";
    assert_eq!(c.code, expected);
}

#[test]
fn generated_program_translates() {
    let mut rng = Rng::new(7);
    let p = Program::create_program(&mut rng);
    let mut c = Compiler::new(p);
    c.translate_program();
    assert!(c.code.starts_with("#include <stdio.h>\n"));
    assert!(c.code.contains("void func_1(unsigned char* buf)\n{\n"));
    assert!(c.code.contains("void main(int argc, char **argv)\n"));
    assert!(c.code.contains("    func_8(buf);\n"));
}

#[test]
fn draws_become_ranges_and_halves() {
    assert_eq!(range_of(17, 10, 15), 12);
    assert_eq!(range_of(0, 3, 4), 3);
    assert_eq!(num_of(100, 7), 2);
    assert_eq!(halves_of(0x1234_5678_9abc_def0), (0x9abc_def0, 0x1234_5678));
}

#[test]
fn draws_become_comparisons() {
    let vars = vec![("count".to_string(), Type::Number), ("label".to_string(), Type::Str)];
    // Every kind is usable here: kind number c is kind c
    match Expr::from_draws(&vars, "abc".to_string(), 0x1234, 2, 7, 0) {
        Expr::WordCmp(i, v) => assert_eq!((i.0, v), (7, 0x1234)),
        other => panic!("unexpected {:?}", other),
    }
    match Expr::from_draws(&vars, "abc".to_string(), 0x1234, 0, 3, 0) {
        Expr::ByteCmp(i, v) => assert_eq!((i.0, v), (3, 0x34)),
        other => panic!("unexpected {:?}", other),
    }
    match Expr::from_draws(&vars, "abc".to_string(), 0, 9, 1, 0) {
        Expr::VarStrCmp(i, n) => assert_eq!((i.0, n.as_str()), (1, "label")),
        other => panic!("unexpected {:?}", other),
    }
    // Without variables only the constant kinds remain: number 4 is then the string comparison
    let none: Vec<(String, Type)> = Vec::new();
    match Expr::from_draws(&none, "xyz".to_string(), 0, 4, 2, 0) {
        Expr::StrCmp(i, Value::StringLiteral(s)) => assert_eq!((i.0, s.as_str()), (2, "xyz")),
        other => panic!("unexpected {:?}", other),
    }
}

#[test]
fn draws_become_simple_operations() {
    match Operation::simple_from_draws("v".to_string(), 0, 5, 300) {
        Operation::AddInts(Type::Number, n, i, c) => assert_eq!((n.as_str(), i.0, c), ("v", 5, 300)),
        other => panic!("unexpected {:?}", other),
    }
    match Operation::simple_from_draws("w".to_string(), 1, 6, 301) {
        Operation::SubInts(Type::Number, n, i, c) => assert_eq!((n.as_str(), i.0, c), ("w", 6, 301)),
        other => panic!("unexpected {:?}", other),
    }
}

#[test]
fn drawn_number_decides_whether_a_block_ends() {
    let mut rng = Rng::new(7);
    let program = Program::default();
    // Below 2: a crash
    let b = Block::block_from_draw(&mut rng, &program, 10, 1, 1);
    assert_eq!(b.stmt_list.len(), 1);
    assert!(b.variables.is_empty());
    assert!(matches!(b.stmt_list[0], Operation::Crash(_)));
    // From 2 to 4: a call, or a crash where there is no function to call
    let b = Block::block_from_draw(&mut rng, &program, 10, 1, 3);
    assert_eq!(b.stmt_list.len(), 1);
    assert!(matches!(b.stmt_list[0], Operation::Crash(_)));
    // From 5 on: a full block of variables and comparisons
    let b = Block::block_from_draw(&mut rng, &program, 10, 1, 7);
    let nv = b.variables.len();
    assert!((2..=4).contains(&nv));
    assert!(b.stmt_list.len() >= nv + 5 && b.stmt_list.len() <= nv + 9);
    assert!(b.stmt_list[nv..].iter().all(|op| matches!(op, Operation::If(_, _))));
}

#[test]
fn a_call_ends_a_block_where_a_function_exists() {
    let mut rng = Rng::new(3);
    let mut program = Program::default();
    program.function_list.push(Function {
        name: "func_1".to_string(),
        typ: Type::Void,
        arguments: Vec::new(),
        body: Block { stmt_list: Vec::new(), variables: Vec::new() },
    });
    let b = Block::block_from_draw(&mut rng, &program, 10, 2, 4);
    assert_eq!(b.stmt_list.len(), 1);
    match &b.stmt_list[0] {
        Operation::CallFunc(n, Type::Void, args) => {
            assert_eq!(n, "func_1");
            assert!(args.is_empty());
        },
        other => panic!("expected a call, got {:?}", other),
    }
}

#[test]
fn strings_of_a_single_value_range() {
    let mut rng = Rng::new(5);
    assert_eq!(rng.next_string(4, 0x41, 0x41), vec![0x41, 0x41, 0x41]);
    assert!(rng.next_string(0, 0x61, 0x7b).is_empty());
}

#[test]
fn main_comes_last_and_takes_the_arguments() {
    let mut program = Program::default();
    program.create_main();
    assert_eq!(program.function_list.len(), 1);
    let main = &program.function_list[0];
    assert_eq!(main.name, "main");
    assert_eq!(main.arguments.len(), 2);
    assert_eq!(main.arguments[0].1, "argc");
    assert_eq!(main.arguments[1].1, "argv");
}
