//! Generator of random C test programs for the fuzzer: functions of nested `if` statements that
//! compare bytes of the input against constants and end in crashes or in calls of other
//! functions, and a `main` that reads the input file and calls them all.
use vstd::prelude::*;
use vstd::string::StringExecFns;

use rand_xoshiro::rand_core::{RngCore, SeedableRng};
use rand_xoshiro::Xoroshiro64Star;

use crate::ir_display::dec_digits;
use crate::loader::text_of;

verus! {

/// Bytes of the input that the program reads from its input file. Larger values should make
/// finding the bugs a little harder
pub const INPUT_SIZE: usize = 500;

/// Maximum depth that scopes can go too before early returning. Without this blocks would
/// recursively create new blocks until a stack overflow occurs. Recommended: 8-12 for approximately
/// 2,000 - 200,000 lines of code. For larger complexity scores, the INPUT_SIZE should also be
/// increased to reduce duplication
pub const COMPLEXITY: usize = 8;

/// Minimum depth of functions, prevents too shallow functions that just immediately crash on base
/// case
pub const MIN_DEPTH: usize = 1;

/// Smallest constant added to or subtracted from an input byte
pub const MIN_ALLOC_SIZE: usize = 0x20;

/// Bound of the constants added to or subtracted from an input byte
pub const MAX_ALLOC_SIZE: usize = 0x100;

/// Maximum length for strings that can be used in comparisons. This needs to be smaller than
/// `INPUT_SIZE`
pub const MAX_STRING_LEN: usize = 0x20;

/// Number of kinds of simple operations
pub const NUM_SIMPLE_OPS: usize = 2;

/// Number of kinds of complex operations
pub const NUM_COMPLEX_OPS: usize = 1;

/// `SeedableRng::seed_from_u64` of rand_xoshiro's `Xoroshiro64Star`: a generator seeded from
/// `seed`. Nothing is stated of the generator's hidden state.
#[verifier::external_body]
fn seeded(seed: u64) -> Xoroshiro64Star {
    Xoroshiro64Star::seed_from_u64(seed)
}

/// `RngCore::next_u64` of `Xoroshiro64Star`: the next pseudo-random number. It depends on the
/// generator's hidden state, so nothing is stated of it.
#[verifier::external_body]
fn next_u64(rng: &mut Xoroshiro64Star) -> u64 {
    rng.next_u64()
}

/// Source of randomness of the generator
pub struct Rng {
    rng: Xoroshiro64Star,
}

impl Rng {
    /// Create a new random source from a seed
    pub fn new(seed: u64) -> Self {
        Self { rng: seeded(seed) }
    }

    /// Return a random number
    pub fn gen(&mut self) -> usize {
        next_u64(&mut self.rng) as usize
    }

    /// Return a random byte-string of `max_length - 1` bytes, each in `min..max`: byte `i` is
    /// the `i`-th number drawn in that range, taken modulo 256
    pub fn next_string(&mut self, max_length: usize, min: usize, max: usize) -> (r: Vec<u8>)
        requires
            min <= max,
        ensures
            r@.len() == if max_length > 0 { max_length - 1 } else { 0 },
            min < max ==> exists|draws: Seq<u64>|
                #![trigger draws.len()]
                draws.len() == r@.len() && forall|i: int| 0 <= i < r@.len() ==> #[trigger] r@[i] == string_byte(draws[i], min, max),
            min == max ==> forall|i: int| 0 <= i < r@.len() ==> #[trigger] r@[i] == (min % 256) as u8,
            min < max <= 256 ==> forall|i: int| 0 <= i < r@.len() ==> min <= #[trigger] r@[i] < max,
    {
        let mut rand_bytes: Vec<u8> = Vec::new();
        let ghost mut draws: Seq<u64> = Seq::empty();
        let mut i: usize = 1;
        while i < max_length
            invariant
                min <= max,
                1 <= i,
                i <= max_length || i == 1,
                rand_bytes@.len() == i - 1,
                draws.len() == rand_bytes@.len(),
                min < max ==> forall|j: int| 0 <= j < rand_bytes@.len() ==> #[trigger] rand_bytes@[j] == string_byte(draws[j], min, max),
                min == max ==> forall|j: int| 0 <= j < rand_bytes@.len() ==> #[trigger] rand_bytes@[j] == (min % 256) as u8,
                min < max <= 256 ==> forall|j: int| 0 <= j < rand_bytes@.len() ==> min <= #[trigger] rand_bytes@[j] < max,
            decreases max_length - i,
        {
            let v = self.gen_range(min, max);
            let b = (v % 256) as u8;
            assert(v < 256 ==> b == v);
            proof {
                if min < max {
                    let d = choose|d: u64| v == #[trigger] range_value(d, min, max);
                    draws = draws.push(d);
                } else {
                    draws = draws.push(0);
                }
            }
            rand_bytes.push(b);
            i = i + 1;
        }
        rand_bytes
    }

    /// Return 2 random 32-bit unsigned integers: the low and the high half of one draw
    pub fn get2_rand(&mut self) -> (r: (usize, usize))
        ensures
            exists|draw: u64| r == #[trigger] halves(draw),
            r.0 <= 0xffff_ffff,
            r.1 <= 0xffff_ffff,
    {
        halves_of(next_u64(&mut self.rng))
    }

    /// Return a random number below `max`, or 0 where `max` is 0
    pub fn next_num(&mut self, max: usize) -> (r: usize)
        ensures
            max == 0 ==> r == 0,
            max > 0 ==> exists|draw: u64| r == #[trigger] num_value(draw, max),
            max > 0 ==> r < max,
    {
        if max == 0 {
            return 0;
        }
        num_of(next_u64(&mut self.rng), max)
    }

    /// Return a random value in the range min..max, inclusive of min and exclusive of max; `min`
    /// where the range is empty
    pub fn gen_range(&mut self, min: usize, max: usize) -> (r: usize)
        requires
            min <= max,
        ensures
            min == max ==> r == min,
            min < max ==> exists|draw: u64| r == #[trigger] range_value(draw, min, max),
            min < max ==> min <= r < max,
    {
        if max == min {
            return min;
        }
        range_of(next_u64(&mut self.rng), min, max)
    }
}

/// The low and the high 32 bits of a draw
pub open spec fn halves(draw: u64) -> (usize, usize) {
    ((draw & 0xffff_ffff) as usize, (draw >> 32) as usize)
}

/// The low and the high 32 bits of a draw
pub fn halves_of(draw: u64) -> (r: (usize, usize))
    ensures
        r == halves(draw),
        r.0 <= 0xffff_ffff,
        r.1 <= 0xffff_ffff,
{
    let lo = draw & 0xffff_ffff;
    let hi = draw >> 32;
    assert(lo <= 0xffff_ffff) by (bit_vector)
        requires
            lo == draw & 0xffff_ffff,
    ;
    assert(hi <= 0xffff_ffff) by (bit_vector)
        requires
            hi == draw >> 32,
    ;
    (lo as usize, hi as usize)
}

/// A draw reduced below `max`
pub open spec fn num_value(draw: u64, max: usize) -> int {
    ((draw as usize) % max) as int
}

/// The byte a draw makes in a random string over `min..max`
pub open spec fn string_byte(draw: u64, min: usize, max: usize) -> u8 {
    (range_value(draw, min, max) % 256) as u8
}

/// A draw reduced into `min..max`
pub open spec fn range_value(draw: u64, min: usize, max: usize) -> int {
    (draw as usize) as int % (max - min) + min
}

/// A draw reduced below `max`
pub fn num_of(draw: u64, max: usize) -> (r: usize)
    requires
        max > 0,
    ensures
        r == num_value(draw, max),
        r < max,
{
    draw as usize % max
}

/// A draw reduced into `min..max`
pub fn range_of(draw: u64, min: usize, max: usize) -> (r: usize)
    requires
        min < max,
    ensures
        r == range_value(draw, min, max),
        min <= r < max,
{
    (draw as usize % (max - min)) + min
}

/// Index into the provided user input
#[derive(Debug, Clone, Copy)]
pub struct Index(pub usize);

/// Supported values
#[derive(Debug, Clone)]
pub enum Value {
    Number(usize),
    StringLiteral(String),
}

/// Supported types
#[derive(Debug, Clone, Copy, PartialEq, Eq, Structural)]
pub enum Type {
    Void,
    Number,
    Str,
    Argv,
    Buffer,
}

/// Expressions that are used in if-statements
#[derive(Debug, Clone)]
pub enum Expr {
    /// Index into input-array and 8-bit value
    ByteCmp(Index, u8),
    /// Index into input-array and variable containing an 8-bit Value
    VarByteCmp(Index, String),
    /// Index into input-array and 16-bit value
    WordCmp(Index, u16),
    /// Index into input-array and variable containing a 16-bit Value
    VarWordCmp(Index, String),
    /// Index into input-array and 32-bit value
    DWordCmp(Index, u32),
    /// Index into input-array and variable containing a 32-bit Value
    VarDWordCmp(Index, String),
    /// Index into input-array and 64-bit value to be used for comparison operation
    QWordCmp(Index, u64),
    /// Index into input-array and variable containing a 64-bit Value
    VarQWordCmp(Index, String),
    /// Index into input-array and a ByteString used for comparison operation
    StrCmp(Index, Value),
    /// Index into input-array and a ByteString used for comparison operation with a variable
    VarStrCmp(Index, String),
}

/// Operations that can occur in the code
#[derive(Debug)]
pub enum Operation {
    /// Add input[.2] to .3 and assign it to a variable
    AddInts(Type, String, Index, usize),
    /// Subtract .3 from input[.2] and assign it to a variable
    SubInts(Type, String, Index, usize),
    /// If expression alongside a true-block
    If(Expr, Block),
    /// Used to call generated functions (name, type, args)
    CallFunc(String, Type, Vec<Type>),
    /// Insert a crash: a write to the given address
    Crash(usize),
    /// Used in `main` to allocate the input buffer based on argv
    AllocInputBuf,
    /// Used to check that argv was properly provided in main
    ArgvCheck,
    /// Used to open the file provided by argv in main
    OpenFile,
    /// Used to read in the fuzz-input from the provided file
    ReadFile,
}

/// Scoped block with allocated variables and a list of statements to be executed
#[derive(Debug)]
pub struct Block {
    /// Statements contained in a block
    pub stmt_list: Vec<Operation>,
    /// (Name, Type)
    pub variables: Vec<(String, Type)>,
}

/// Intermediate representation of functions
#[derive(Debug)]
pub struct Function {
    pub name: String,
    pub typ: Type,
    pub arguments: Vec<(Type, String)>,
    pub body: Block,
}

/// The actual program being modelled
#[derive(Debug)]
pub struct Program {
    /// List of generated functions
    pub function_list: Vec<Function>,
}

/// std's `format!("{}", v)` of a `usize`: its decimal digits.
#[verifier::external_body]
fn dec_usize(v: usize) -> (r: String)
    ensures
        r@ == dec_digits(v as nat),
{
    format!("{}", v)
}

/// std's `format!("{}", v)` of a `u64`: its decimal digits.
#[verifier::external_body]
fn dec_u64(v: u64) -> (r: String)
    ensures
        r@ == dec_digits(v as nat),
{
    format!("{}", v)
}

/// std's `format!("{:x}", v)`: the lower-case hexadecimal digits of `v`.
#[verifier::external_body]
fn hex_usize(v: usize) -> (r: String)
    ensures
        r@ == crate::ir_display::hex_digits(v as nat, false),
{
    format!("{:x}", v)
}

/// C spelling of a type; `argv` has its own spelling in function headers
pub open spec fn type_text(t: Type) -> Seq<char> {
    match t {
        Type::Void => "void"@,
        Type::Number => "int"@,
        Type::Str => "unsigned char *"@,
        Type::Buffer => "unsigned char*"@,
        Type::Argv => "char **"@,
    }
}

impl Type {
    /// C spelling of the type
    pub fn text(&self) -> (r: &'static str)
        ensures
            r@ == type_text(*self),
    {
        match self {
            Type::Void => "void",
            Type::Number => "int",
            Type::Str => "unsigned char *",
            Type::Buffer => "unsigned char*",
            Type::Argv => "char **",
        }
    }
}

/// Text of a value: a number in decimal, a string in double quotes
pub open spec fn value_text(v: Value) -> Seq<char> {
    match v {
        Value::Number(n) => dec_digits(n as nat),
        Value::StringLiteral(s) => "\""@ + s@ + "\""@,
    }
}

impl Value {
    /// Text of the value
    pub fn text(&self) -> (r: String)
        ensures
            r@ == value_text(*self),
    {
        match self {
            Value::Number(n) => dec_usize(*n),
            Value::StringLiteral(s) => {
                let mut r = String::from_str("\"");
                r.append(s.as_str());
                r.append("\"");
                r
            },
        }
    }
}

/// C text of a comparison against the input buffer
pub open spec fn expr_text(e: Expr) -> Seq<char> {
    match e {
        Expr::VarByteCmp(a, b) | Expr::VarWordCmp(a, b) | Expr::VarDWordCmp(a, b) | Expr::VarQWordCmp(a, b)
        | Expr::VarStrCmp(a, b) => "buf["@ + dec_digits(a.0 as nat) + "] == "@ + b@,
        Expr::ByteCmp(a, b) => "buf["@ + dec_digits(a.0 as nat) + "] == "@ + dec_digits(b as nat),
        Expr::WordCmp(a, b) => "*(unsigned short*)(buf + "@ + dec_digits(a.0 as nat) + ") == "@ + dec_digits(
            b as nat,
        ),
        Expr::QWordCmp(a, b) => "*(unsigned int*)(buf + "@ + dec_digits(a.0 as nat) + ") == "@ + dec_digits(
            b as nat,
        ) + "U"@,
        Expr::DWordCmp(a, b) => "*(unsigned long*)(buf + "@ + dec_digits(a.0 as nat) + ") == "@ + dec_digits(
            b as nat,
        ) + "ULL"@,
        Expr::StrCmp(a, b) => "!strcmp(&buf["@ + dec_digits(a.0 as nat) + "], "@ + value_text(b) + ")"@,
    }
}

impl Expr {
    /// C text of the comparison
    pub fn text(&self) -> (r: String)
        ensures
            r@ == expr_text(*self),
    {
        match self {
            Expr::VarByteCmp(a, b) | Expr::VarWordCmp(a, b) | Expr::VarDWordCmp(a, b) | Expr::VarQWordCmp(a, b)
            | Expr::VarStrCmp(a, b) => {
                let mut r = String::from_str("buf[");
                r.append(dec_usize(a.0).as_str());
                r.append("] == ");
                r.append(b.as_str());
                r
            },
            Expr::ByteCmp(a, b) => {
                let mut r = String::from_str("buf[");
                r.append(dec_usize(a.0).as_str());
                r.append("] == ");
                r.append(dec_u64(*b as u64).as_str());
                r
            },
            Expr::WordCmp(a, b) => {
                let mut r = String::from_str("*(unsigned short*)(buf + ");
                r.append(dec_usize(a.0).as_str());
                r.append(") == ");
                r.append(dec_u64(*b as u64).as_str());
                r
            },
            Expr::QWordCmp(a, b) => {
                let mut r = String::from_str("*(unsigned int*)(buf + ");
                r.append(dec_usize(a.0).as_str());
                r.append(") == ");
                r.append(dec_u64(*b).as_str());
                r.append("U");
                r
            },
            Expr::DWordCmp(a, b) => {
                let mut r = String::from_str("*(unsigned long*)(buf + ");
                r.append(dec_usize(a.0).as_str());
                r.append(") == ");
                r.append(dec_u64(*b as u64).as_str());
                r.append("ULL");
                r
            },
            Expr::StrCmp(a, b) => {
                let mut r = String::from_str("!strcmp(&buf[");
                r.append(dec_usize(a.0).as_str());
                r.append("], ");
                r.append(b.text().as_str());
                r.append(")");
                r
            },
        }
    }
}

/// C text of an operation, without the block of an `if`
pub open spec fn op_text(op: Operation) -> Seq<char> {
    match op {
        Operation::AddInts(a, b, c, d) => type_text(a) + " "@ + b@ + " = buf["@ + dec_digits(c.0 as nat) + "] + "@
            + dec_digits(d as nat),
        Operation::SubInts(a, b, c, d) => type_text(a) + " "@ + b@ + " = buf["@ + dec_digits(c.0 as nat) + "] - "@
            + dec_digits(d as nat),
        Operation::If(a, _) => "if ("@ + expr_text(a) + ") "@,
        Operation::AllocInputBuf => "unsigned char *buf = malloc("@ + dec_digits(INPUT_SIZE as nat) + ")"@,
        Operation::ArgvCheck => "if (argc != 2) return"@,
        Operation::OpenFile => "FILE *fd = fopen(argv[1], \"r\")"@,
        Operation::ReadFile => "fgets(buf, "@ + dec_digits(INPUT_SIZE as nat) + ", fd)"@,
        Operation::Crash(addr) => "*(unsigned long*)0x"@ + crate::ir_display::hex_digits(addr as nat, false) + " = 0"@,
        Operation::CallFunc(a, _, _) => a@ + "(buf)"@,
    }
}

impl Operation {
    /// C text of the operation, without the block of an `if`
    pub fn text(&self) -> (r: String)
        ensures
            r@ == op_text(*self),
    {
        match self {
            Operation::AddInts(a, b, c, d) | Operation::SubInts(a, b, c, d) => {
                let mut r = String::from_str(a.text());
                r.append(" ");
                r.append(b.as_str());
                r.append(" = buf[");
                r.append(dec_usize(c.0).as_str());
                if matches!(self, Operation::AddInts(..)) {
                    r.append("] + ");
                } else {
                    r.append("] - ");
                }
                r.append(dec_usize(*d).as_str());
                r
            },
            Operation::If(a, _) => {
                let mut r = String::from_str("if (");
                r.append(a.text().as_str());
                r.append(") ");
                r
            },
            Operation::AllocInputBuf => {
                let mut r = String::from_str("unsigned char *buf = malloc(");
                r.append(dec_usize(INPUT_SIZE).as_str());
                r.append(")");
                r
            },
            Operation::ArgvCheck => String::from_str("if (argc != 2) return"),
            Operation::OpenFile => String::from_str("FILE *fd = fopen(argv[1], \"r\")"),
            Operation::ReadFile => {
                let mut r = String::from_str("fgets(buf, ");
                r.append(dec_usize(INPUT_SIZE).as_str());
                r.append(", fd)");
                r
            },
            Operation::Crash(addr) => {
                let mut r = String::from_str("*(unsigned long*)0x");
                r.append(hex_usize(*addr).as_str());
                r.append(" = 0");
                r
            },
            Operation::CallFunc(a, _, _) => {
                let mut r = String::from_str(a.as_str());
                r.append("(buf)");
                r
            },
        }
    }
}

/// Four spaces for each level of nesting
pub open spec fn indent(depth: nat) -> Seq<char>
    decreases depth,
{
    if depth == 0 {
        seq![]
    } else {
        indent((depth - 1) as nat) + "    "@
    }
}

/// C text of a list of statements at the given depth
pub open spec fn stmts_text(ops: Seq<Operation>, depth: nat) -> Seq<char>
    decreases ops,
{
    if ops.len() == 0 {
        seq![]
    } else {
        stmts_text(ops.drop_last(), depth) + stmt_text(ops.last(), depth)
    }
}

/// C text of one statement at the given depth
pub open spec fn stmt_text(op: Operation, depth: nat) -> Seq<char>
    decreases op,
{
    indent(depth) + match op {
        Operation::If(e, b) => op_text(op) + "\n"@ + block_text(b, depth),
        _ => op_text(op) + ";\n"@,
    }
}

/// C text of a block at the given depth: its statements between braces, one level deeper
pub open spec fn block_text(b: Block, depth: nat) -> Seq<char>
    decreases b,
{
    indent(depth) + "{\n"@ + stmts_text(b.stmt_list@, depth + 1) + indent(depth) + "}\n\n"@
}

/// A generated name: fifteen lower-case letters
pub open spec fn is_name(s: Seq<char>) -> bool {
    &&& s.len() == 15
    &&& forall|i: int| 0 <= i < 15 ==> 0x61 <= (#[trigger] s[i]) as u32 <= 0x7a
}

/// Fifteen random characters of the byte range `min..max`, which lies in ASCII
fn random_text(rng: &mut Rng, min: usize, max: usize) -> (r: String)
    requires
        min < max <= 0x80,
    ensures
        r@.len() == 15,
        forall|i: int| 0 <= i < 15 ==> min <= ((#[trigger] r@[i]) as u32) < max,
{
    let bytes = rng.next_string(16, min, max);
    let r = text_of(bytes.as_slice());
    assert forall|i: int| 0 <= i < bytes@.len() implies bytes@[i] < 0x80 by {
        assert(min <= bytes@[i] < max);
    }
    assert forall|i: int| 0 <= i < 15 implies min <= ((#[trigger] r@[i]) as u32) < max by {
        assert(r@[i] == bytes@[i] as char);
        assert(min <= bytes@[i] < max);
    }
    r
}

/// A random name of fifteen lower-case letters
fn random_name(rng: &mut Rng) -> (r: String)
    ensures
        is_name(r@),
{
    random_text(rng, 0x61, 0x7b)
}

/// A variable of the given type is in scope under the given name
pub open spec fn has_var(vars: Seq<(String, Type)>, name: Seq<char>, t: Type) -> bool {
    exists|j: int| 0 <= j < vars.len() && (#[trigger] vars[j]).0@ == name && vars[j].1 == t
}

/// The comparison reads inside the input: numbers at an index of the input, strings far enough
/// from its end; the variables it names are in scope with the right type; its string constants
/// are generated names
pub open spec fn expr_ok(e: Expr, vars: Seq<(String, Type)>) -> bool {
    match e {
        Expr::ByteCmp(i, _) | Expr::WordCmp(i, _) | Expr::DWordCmp(i, _) | Expr::QWordCmp(i, _) => i.0 < INPUT_SIZE,
        Expr::VarByteCmp(i, n) | Expr::VarWordCmp(i, n) | Expr::VarDWordCmp(i, n) | Expr::VarQWordCmp(i, n) => i.0
            < INPUT_SIZE && has_var(vars, n@, Type::Number),
        Expr::StrCmp(i, v) => i.0 < INPUT_SIZE - MAX_STRING_LEN && (match v {
            Value::StringLiteral(s) => is_name(s@),
            Value::Number(_) => false,
        }),
        Expr::VarStrCmp(i, n) => i.0 < INPUT_SIZE - MAX_STRING_LEN && has_var(vars, n@, Type::Str),
    }
}

/// The names of the variables of type `t` among `vars`, in order
pub open spec fn names_of(vars: Seq<(String, Type)>, t: Type) -> Seq<Seq<char>>
    decreases vars.len(),
{
    if vars.len() == 0 {
        Seq::empty()
    } else {
        names_of(vars.drop_last(), t) + if vars.last().1 == t { seq![vars.last().0@] } else { Seq::empty() }
    }
}

/// Names of the variables of the given type
fn names_of_type(vars: &Vec<(String, Type)>, t: Type) -> (r: Vec<String>)
    ensures
        forall|k: int| 0 <= k < r@.len() ==> has_var(vars@, (#[trigger] r@[k])@, t),
        r@.len() == 0 ==> forall|j: int| 0 <= j < vars@.len() ==> (#[trigger] vars@[j]).1 != t,
        r@.len() == names_of(vars@, t).len(),
        forall|k: int| 0 <= k < r@.len() ==> (#[trigger] r@[k])@ == names_of(vars@, t)[k],
{
    let mut r: Vec<String> = Vec::new();
    let mut j: usize = 0;
    while j < vars.len()
        invariant
            j <= vars@.len(),
            forall|k: int| 0 <= k < r@.len() ==> has_var(vars@, (#[trigger] r@[k])@, t),
            r@.len() == 0 ==> forall|m: int| 0 <= m < j ==> (#[trigger] vars@[m]).1 != t,
            r@.len() == names_of(vars@.take(j as int), t).len(),
            forall|k: int| 0 <= k < r@.len() ==> (#[trigger] r@[k])@ == names_of(vars@.take(j as int), t)[k],
        decreases vars@.len() - j,
    {
        assert(vars@.take(j + 1).drop_last() =~= vars@.take(j as int));
        let ghost before = names_of(vars@.take(j as int), t);
        if vars[j].1 == t {
            let name = vars[j].0.clone();
            assert(vars@[j as int].0@ == name@);
            r.push(name);
            assert(names_of(vars@.take(j + 1), t) == before + seq![name@]);
        } else {
            assert(names_of(vars@.take(j + 1), t) == before);
        }
        j = j + 1;
    }
    assert(vars@.take(vars@.len() as int) =~= vars@);
    r
}

/// A comparison kind (in declaration order) can be made: those against a variable need one of
/// the right type in scope
pub open spec fn kind_usable(vars: Seq<(String, Type)>, k: int) -> bool {
    if k == 1 || k == 3 || k == 5 || k == 7 {
        names_of(vars, Type::Number).len() > 0
    } else if k == 9 {
        names_of(vars, Type::Str).len() > 0
    } else {
        true
    }
}

/// The comparison kinds below `k` that can be made, in order
pub open spec fn usable_kinds(vars: Seq<(String, Type)>, k: int) -> Seq<usize>
    decreases k,
{
    if k <= 0 {
        Seq::empty()
    } else {
        usable_kinds(vars, k - 1) + if kind_usable(vars, k - 1) { seq![(k - 1) as usize] } else { Seq::empty() }
    }
}

/// `e` is the comparison that the draws make: kind number `c` among the usable kinds, input
/// index `i`, constant `rnum` (cut to the compared width), variable number `p` among those of the
/// right type, and string `rstr`
pub open spec fn expr_from(
    vars: Seq<(String, Type)>,
    rstr: Seq<char>,
    rnum: usize,
    c: int,
    i: usize,
    p: int,
    e: Expr,
) -> bool {
    let k = usable_kinds(vars, 10)[c];
    let nums = names_of(vars, Type::Number);
    let strs = names_of(vars, Type::Str);
    match e {
        Expr::ByteCmp(ix, v) => k == 0 && ix.0 == i && v == rnum as u8,
        Expr::VarByteCmp(ix, n) => k == 1 && ix.0 == i && n@ == nums[p],
        Expr::WordCmp(ix, v) => k == 2 && ix.0 == i && v == rnum as u16,
        Expr::VarWordCmp(ix, n) => k == 3 && ix.0 == i && n@ == nums[p],
        Expr::DWordCmp(ix, v) => k == 4 && ix.0 == i && v == rnum as u32,
        Expr::VarDWordCmp(ix, n) => k == 5 && ix.0 == i && n@ == nums[p],
        Expr::QWordCmp(ix, v) => k == 6 && ix.0 == i && v == rnum as u64,
        Expr::VarQWordCmp(ix, n) => k == 7 && ix.0 == i && n@ == nums[p],
        Expr::StrCmp(ix, v) => k == 8 && ix.0 == i && (v matches Value::StringLiteral(s) && s@ == rstr),
        Expr::VarStrCmp(ix, n) => k == 9 && ix.0 == i && n@ == strs[p],
    }
}

/// Every listed kind can be made
proof fn lemma_usable_kinds(vars: Seq<(String, Type)>, k: int)
    requires
        k <= 10,
    ensures
        forall|q: int| 0 <= q < usable_kinds(vars, k).len() ==> kind_usable(vars, #[trigger] usable_kinds(vars, k)[q] as int),
    decreases k,
{
    if k > 0 {
        lemma_usable_kinds(vars, k - 1);
        let prev = usable_kinds(vars, k - 1);
        assert forall|q: int| 0 <= q < usable_kinds(vars, k).len() implies kind_usable(vars, #[trigger] usable_kinds(vars, k)[q] as int) by {
            if q < prev.len() {
                assert(usable_kinds(vars, k)[q] == prev[q]);
            } else {
                assert(usable_kinds(vars, k)[q] == (k - 1) as usize);
            }
        }
    }
}

/// The comparison kinds that can be made, in order
fn usable_kind_list(vars: &Vec<(String, Type)>, has_num: bool, has_str: bool) -> (r: Vec<usize>)
    requires
        has_num == (names_of(vars@, Type::Number).len() > 0),
        has_str == (names_of(vars@, Type::Str).len() > 0),
    ensures
        r@ == usable_kinds(vars@, 10),
        forall|q: int| 0 <= q < r@.len() ==> #[trigger] r@[q] < 10,
        r@.len() > 0,
{
    let mut r: Vec<usize> = Vec::new();
    let mut k: usize = 0;
    while k < 10
        invariant
            has_num == (names_of(vars@, Type::Number).len() > 0),
            has_str == (names_of(vars@, Type::Str).len() > 0),
            k <= 10,
            r@ == usable_kinds(vars@, k as int),
            forall|q: int| 0 <= q < r@.len() ==> #[trigger] r@[q] < k,
            k > 0 ==> r@.len() > 0,
        decreases 10 - k,
    {
        let usable = if k == 1 || k == 3 || k == 5 || k == 7 {
            has_num
        } else if k == 9 {
            has_str
        } else {
            true
        };
        if usable {
            r.push(k);
        }
        k = k + 1;
    }
    r
}

/// The draws stay in range: a usable kind, an index inside the input (far enough from its end
/// for a string), and a variable that exists
pub open spec fn draws_fit(vars: Seq<(String, Type)>, c: int, i: usize, p: int) -> bool {
    let ks = usable_kinds(vars, 10);
    &&& 0 <= c < ks.len()
    &&& (if ks[c] >= 8 { i < INPUT_SIZE - MAX_STRING_LEN } else { i < INPUT_SIZE })
    &&& (ks[c] == 1 || ks[c] == 3 || ks[c] == 5 || ks[c] == 7) ==> 0 <= p < names_of(vars, Type::Number).len()
    &&& ks[c] == 9 ==> 0 <= p < names_of(vars, Type::Str).len()
}

impl Expr {
    /// Return a random comparison. Comparisons against a variable are chosen only where a
    /// variable of the right type is in scope; each kind that can be made is equally likely.
    pub fn get_rand_expr(rng: &mut Rng, vars: &Vec<(String, Type)>) -> (r: Expr)
        ensures
            expr_ok(r, vars@),
            exists|rstr: Seq<char>, rnum: usize, c: int, i: usize, p: int|
                is_name(rstr) && draws_fit(vars@, c, i, p) && #[trigger] expr_from(vars@, rstr, rnum, c, i, p, r),
    {
        let rstr = random_name(rng);
        let rnum = rng.gen();
        let num_vars = names_of_type(vars, Type::Number);
        let str_vars = names_of_type(vars, Type::Str);
        let kinds = usable_kind_list(vars, num_vars.len() > 0, str_vars.len() > 0);
        let c = rng.next_num(kinds.len());
        let k = kinds[c];
        proof {
            lemma_usable_kinds(vars@, 10);
            assert(kind_usable(vars@, k as int));
        }
        let i = if k >= 8 {
            rng.next_num(INPUT_SIZE - MAX_STRING_LEN)
        } else {
            rng.next_num(INPUT_SIZE)
        };
        let p = if k == 1 || k == 3 || k == 5 || k == 7 {
            rng.next_num(num_vars.len())
        } else if k == 9 {
            rng.next_num(str_vars.len())
        } else {
            0
        };
        let ghost rs = rstr@;
        let e = Expr::from_draws(vars, rstr, rnum, c, i, p);
        assert(expr_from(vars@, rs, rnum, c as int, i, p as int, e));
        e
    }

    /// The comparison that the draws make: kind number `c` among the kinds that can be made,
    /// input index `i`, constant `rnum`, variable number `p` among those of the right type, and
    /// the string `rstr`
    pub fn from_draws(vars: &Vec<(String, Type)>, rstr: String, rnum: usize, c: usize, i: usize, p: usize) -> (r: Expr)
        requires
            draws_fit(vars@, c as int, i, p as int),
        ensures
            expr_from(vars@, rstr@, rnum, c as int, i, p as int, r),
            is_name(rstr@) ==> expr_ok(r, vars@),
    {
        let num_vars = names_of_type(vars, Type::Number);
        let str_vars = names_of_type(vars, Type::Str);
        let kinds = usable_kind_list(vars, num_vars.len() > 0, str_vars.len() > 0);
        let k = kinds[c];
        if k == 0 {
            Expr::ByteCmp(Index(i), rnum as u8)
        } else if k == 1 {
            Expr::VarByteCmp(Index(i), num_vars[p].clone())
        } else if k == 2 {
            Expr::WordCmp(Index(i), rnum as u16)
        } else if k == 3 {
            Expr::VarWordCmp(Index(i), num_vars[p].clone())
        } else if k == 4 {
            Expr::DWordCmp(Index(i), rnum as u32)
        } else if k == 5 {
            Expr::VarDWordCmp(Index(i), num_vars[p].clone())
        } else if k == 6 {
            Expr::QWordCmp(Index(i), rnum as u64)
        } else if k == 7 {
            Expr::VarQWordCmp(Index(i), num_vars[p].clone())
        } else if k == 8 {
            Expr::StrCmp(Index(i), Value::StringLiteral(rstr))
        } else {
            Expr::VarStrCmp(Index(i), str_vars[p].clone())
        }
    }
}

/// A simple operation: a new integer variable, set from an input byte and a constant
pub open spec fn simple_ok(op: Operation) -> bool {
    match op {
        Operation::AddInts(t, n, i, c) | Operation::SubInts(t, n, i, c) => t == Type::Number && is_name(n@) && i.0
            < INPUT_SIZE && MIN_ALLOC_SIZE <= c < MAX_ALLOC_SIZE,
        _ => false,
    }
}

/// `op` is the simple operation that the draws make: it adds (kind 0) or subtracts (other
/// kinds) the constant `c` to input byte `i` into the new integer variable `name`
pub open spec fn simple_from(name: Seq<char>, kind: usize, i: usize, c: usize, op: Operation) -> bool {
    match op {
        Operation::AddInts(t, n, ix, cc) => kind == 0 && t == Type::Number && n@ == name && ix.0 == i && cc == c,
        Operation::SubInts(t, n, ix, cc) => kind != 0 && t == Type::Number && n@ == name && ix.0 == i && cc == c,
        _ => false,
    }
}

/// The variable a simple operation declares
pub open spec fn declared(op: Operation) -> (Seq<char>, Type) {
    match op {
        Operation::AddInts(t, n, _, _) | Operation::SubInts(t, n, _, _) => (n@, t),
        _ => (seq![], Type::Void),
    }
}

/// Names of a list of functions
pub open spec fn fn_names(fs: Seq<Function>) -> Seq<Seq<char>> {
    fs.map_values(|f: Function| f.name@)
}

/// The statement that ends a chain of `if`s: a crash, or a call of one of the functions `names`
/// other than `main`
pub open spec fn terminator_ok(op: Operation, names: Seq<Seq<char>>) -> bool {
    match op {
        Operation::Crash(_) => true,
        Operation::CallFunc(n, t, args) => t == Type::Void && args@.len() == 0 && names.contains(n@) && n@
            != "main"@,
        _ => false,
    }
}

/// The `if` is well formed: its comparison is, over the variables in scope, and so is its block
/// one level deeper and with one less to spend
pub open spec fn if_ok(op: Operation, vars: Seq<(String, Type)>, complexity: nat, depth: nat, names: Seq<Seq<char>>) -> bool
    decreases complexity, 0nat,
{
    match op {
        Operation::If(e, inner) => complexity > 0 && expr_ok(e, vars) && block_ok(
            inner,
            (complexity - 1) as nat,
            depth + 1,
            names,
        ),
        _ => false,
    }
}

/// A generated block at the given depth, with the given complexity left to spend. Below the
/// minimum depth it may be a single crash or call, and it is one where there is little left to
/// spend; otherwise it declares two to four variables from the input and then tests five to nine
/// comparisons over them, each guarding a deeper block.
pub open spec fn block_ok(b: Block, complexity: nat, depth: nat, names: Seq<Seq<char>>) -> bool
    decreases complexity, 1nat,
{
    let s = b.stmt_list@;
    let v = b.variables@;
    ||| (depth >= MIN_DEPTH && s.len() == 1 && v.len() == 0 && terminator_ok(s[0], names))
    ||| (complexity > 0 && (depth < MIN_DEPTH || complexity > 5) && 2 <= v.len() <= 4 && v.len() + 5 <= s.len()
        <= v.len() + 9 && (forall|i: int| 0 <= i < v.len() ==> simple_ok(#[trigger] s[i]) && declared(s[i]) == (
        v[i].0@,
        v[i].1,
    )) && (forall|i: int| v.len() <= i < s.len() ==> if_ok(#[trigger] s[i], v, complexity, depth, names)))
}

/// A block that ends at once: a single crash or call, and no variables
pub open spec fn terminal_block(b: Block, names: Seq<Seq<char>>) -> bool {
    &&& b.stmt_list@.len() == 1
    &&& b.variables@.len() == 0
    &&& terminator_ok(b.stmt_list@[0], names)
}

/// A full block: two to four variables declared from the input, then five to nine comparisons
/// over them, each guarding a deeper block
pub open spec fn body_ok(b: Block, complexity: nat, depth: nat, names: Seq<Seq<char>>) -> bool {
    let s = b.stmt_list@;
    let v = b.variables@;
    &&& complexity > 0
    &&& (depth < MIN_DEPTH || complexity > 5)
    &&& 2 <= v.len() <= 4
    &&& v.len() + 5 <= s.len() <= v.len() + 9
    &&& forall|i: int| 0 <= i < v.len() ==> simple_ok(#[trigger] s[i]) && declared(s[i]) == (v[i].0@, v[i].1)
    &&& forall|i: int| v.len() <= i < s.len() ==> if_ok(#[trigger] s[i], v, complexity, depth, names)
}

impl Operation {
    /// Return a random simple operation
    pub fn get_simple_op(rng: &mut Rng) -> (r: Operation)
        ensures
            simple_ok(r),
            exists|name: Seq<char>, kind: usize, i: usize, c: usize|
                is_name(name) && kind < NUM_SIMPLE_OPS && i < INPUT_SIZE && MIN_ALLOC_SIZE <= c < MAX_ALLOC_SIZE
                    && #[trigger] simple_from(name, kind, i, c, r),
    {
        let var_name = random_name(rng);
        let kind = rng.next_num(NUM_SIMPLE_OPS);
        let i = rng.next_num(INPUT_SIZE);
        let c = rng.gen_range(MIN_ALLOC_SIZE, MAX_ALLOC_SIZE);
        let ghost name = var_name@;
        let r = Operation::simple_from_draws(var_name, kind, i, c);
        assert(simple_from(name, kind, i, c, r));
        r
    }

    /// The simple operation that the draws make: a new integer variable `name`, set from input
    /// byte `i` plus (kind 0) or minus (other kinds) the constant `c`
    pub fn simple_from_draws(name: String, kind: usize, i: usize, c: usize) -> (r: Operation)
        ensures
            simple_from(name@, kind, i, c, r),
    {
        if kind == 0 {
            Operation::AddInts(Type::Number, name, Index(i), c)
        } else {
            Operation::SubInts(Type::Number, name, Index(i), c)
        }
    }

    /// Return a random more complex operation: an `if` over the variables in scope, guarding a
    /// new block one level deeper
    pub fn get_complex_op(rng: &mut Rng, program: &Program, vars: &Vec<(String, Type)>, complexity: usize,
        depth: usize) -> (r: Operation)
        requires
            complexity > 0,
            depth + complexity < usize::MAX,
        ensures
            if_ok(r, vars@, complexity as nat, depth as nat, fn_names(program.function_list@)),
        decreases complexity, 0nat,
    {
        let _var_name = random_text(rng, 0x41, 0x7b);
        let _kind = rng.next_num(NUM_COMPLEX_OPS);
        let e = Expr::get_rand_expr(rng, vars);
        let b = Block::init_new_block(rng, program, complexity - 1, depth + 1);
        Operation::If(e, b)
    }
}

impl Block {
    /// Create a new block initialized with random operations. Once the minimum depth is reached
    /// a number below `complexity` is drawn, and `block_from_draw` decides on it whether the
    /// block ends at once
    pub fn init_new_block(rng: &mut Rng, program: &Program, complexity: usize, depth: usize) -> (r: Block)
        requires
            depth >= MIN_DEPTH || complexity > 0,
            depth + complexity < usize::MAX,
        ensures
            block_ok(r, complexity as nat, depth as nat, fn_names(program.function_list@)),
        decreases complexity, 3nat,
    {
        if depth >= MIN_DEPTH {
            let num = rng.gen_range(0, complexity);
            Block::block_from_draw(rng, program, complexity, depth, num)
        } else {
            Block::new_body(rng, program, complexity, depth)
        }
    }

    /// The block at `depth` (at least the minimum depth) for the drawn number `num`: below 5 it
    /// ends at once, on a crash where `num` is below 2 and otherwise on a call of one of the
    /// functions (a crash where the one drawn is `main` or there is none); from 5 on it is a full
    /// block
    pub fn block_from_draw(rng: &mut Rng, program: &Program, complexity: usize, depth: usize, num: usize) -> (r: Block)
        requires
            depth >= MIN_DEPTH,
            num < 5 || num < complexity,
            depth + complexity < usize::MAX,
        ensures
            num < 5 ==> terminal_block(r, fn_names(program.function_list@)),
            num < 2 ==> r.stmt_list@[0] is Crash,
            num >= 5 ==> body_ok(r, complexity as nat, depth as nat, fn_names(program.function_list@)),
            block_ok(r, complexity as nat, depth as nat, fn_names(program.function_list@)),
        decreases complexity, 2nat,
    {
        let ghost names = fn_names(program.function_list@);
        if num >= 5 {
            return Block::new_body(rng, program, complexity, depth);
        }
        let mut block = Block { stmt_list: Vec::new(), variables: Vec::new() };
        if num < 2 {
            // Insert crash
            block.stmt_list.push(Operation::Crash(rng.gen()));
        } else {
            // Insert a function-call unless 'main' was retrieved, or no functions exist
            // yet, in which case just insert a crash
            let idx = rng.next_num(program.function_list.len());
            if idx < program.function_list.len() {
                let f = &program.function_list[idx];
                let main = String::from_str("main");
                if f.name == main {
                    block.stmt_list.push(Operation::Crash(rng.gen()));
                } else {
                    assert(names[idx as int] == f.name@);
                    block.stmt_list.push(Operation::CallFunc(f.name.clone(), Type::Void, Vec::new()));
                }
            } else {
                block.stmt_list.push(Operation::Crash(rng.gen()));
            }
        }
        block
    }

    /// A full block: some simple operations to set up variables, then more complex ones over
    /// them
    fn new_body(rng: &mut Rng, program: &Program, complexity: usize, depth: usize) -> (r: Block)
        requires
            complexity > 0,
            depth < MIN_DEPTH || complexity > 5,
            depth + complexity < usize::MAX,
        ensures
            body_ok(r, complexity as nat, depth as nat, fn_names(program.function_list@)),
            block_ok(r, complexity as nat, depth as nat, fn_names(program.function_list@)),
        decreases complexity, 1nat,
    {
        let ghost names = fn_names(program.function_list@);
        let mut block = Block { stmt_list: Vec::new(), variables: Vec::new() };

        // Start by inserting some simple operations to setup some variables that can later be used
        let n_simple = rng.gen_range(2, 5);
        let mut k: usize = 0;
        while k < n_simple
            invariant
                2 <= n_simple < 5,
                k <= n_simple,
                block.stmt_list@.len() == k,
                block.variables@.len() == k,
                forall|i: int| 0 <= i < k ==> simple_ok(#[trigger] block.stmt_list@[i]) && declared(
                    block.stmt_list@[i],
                ) == (block.variables@[i].0@, block.variables@[i].1),
            decreases n_simple - k,
        {
            let op = Operation::get_simple_op(rng);
            let (name, typ) = match &op {
                Operation::AddInts(t, n, _, _) | Operation::SubInts(t, n, _, _) => (n.clone(), *t),
                _ => (String::new(), Type::Void),
            };
            block.variables.push((name, typ));
            block.stmt_list.push(op);
            k = k + 1;
        }

        // Next insert some more complex operations
        let n_complex = rng.gen_range(5, 10);
        let mut m: usize = 0;
        while m < n_complex
            invariant
                5 <= n_complex < 10,
                m <= n_complex,
                2 <= n_simple < 5,
                complexity > 0,
                depth < MIN_DEPTH || complexity > 5,
                depth + complexity < usize::MAX,
                names == fn_names(program.function_list@),
                block.variables@.len() == n_simple,
                block.stmt_list@.len() == n_simple + m,
                forall|i: int| 0 <= i < n_simple ==> simple_ok(#[trigger] block.stmt_list@[i]) && declared(
                    block.stmt_list@[i],
                ) == (block.variables@[i].0@, block.variables@[i].1),
                forall|i: int| n_simple <= i < n_simple + m ==> if_ok(
                    #[trigger] block.stmt_list@[i],
                    block.variables@,
                    complexity as nat,
                    depth as nat,
                    names,
                ),
            decreases n_complex - m,
        {
            let op = Operation::get_complex_op(rng, program, &block.variables, complexity, depth);
            block.stmt_list.push(op);
            m = m + 1;
        }
        block
    }
}

/// The block of `main`: check the arguments, open and read the input file into the buffer,
/// then call each of the functions `fs` in order
pub open spec fn main_block_ok(b: Block, fs: Seq<Function>) -> bool {
    let s = b.stmt_list@;
    &&& b.variables@.len() == 0
    &&& s.len() == 4 + fs.len()
    &&& s[0] is ArgvCheck && s[1] is OpenFile && s[2] is AllocInputBuf && s[3] is ReadFile
    &&& forall|i: int| 0 <= i < fs.len() ==> match #[trigger] s[4 + i] {
        Operation::CallFunc(n, t, a) => n@ == fs[i].name@ && t == fs[i].typ && a@ == fs[i].arguments@.map_values(
            |p: (Type, String)| p.0,
        ),
        _ => false,
    }
}

/// The `i`-th generated function: `void func_<i + 1>(unsigned char* buf)`, whose body may call
/// only the functions `earlier`
pub open spec fn fn_ok(f: Function, i: int, earlier: Seq<Seq<char>>) -> bool {
    &&& f.name@ == "func_"@ + dec_digits((i + 1) as nat)
    &&& f.typ == Type::Void
    &&& f.arguments@.len() == 1
    &&& f.arguments@[0].0 == Type::Buffer
    &&& f.arguments@[0].1@ == "buf"@
    &&& block_ok(f.body, COMPLEXITY as nat, 0, earlier)
}

/// `main(int argc, char **argv)`, calling the functions `fs`
pub open spec fn main_ok(f: Function, fs: Seq<Function>) -> bool {
    &&& f.name@ == "main"@
    &&& f.typ == Type::Void
    &&& f.arguments@.len() == 2
    &&& f.arguments@[0].0 == Type::Number
    &&& f.arguments@[0].1@ == "argc"@
    &&& f.arguments@[1].0 == Type::Argv
    &&& f.arguments@[1].1@ == "argv"@
    &&& main_block_ok(f.body, fs)
}

/// A generated program: `COMPLEXITY` functions, each of which may call only those before it,
/// and a `main` that calls them all
pub open spec fn program_ok(p: Program) -> bool {
    let fs = p.function_list@;
    &&& fs.len() == COMPLEXITY + 1
    &&& forall|i: int| 0 <= i < COMPLEXITY ==> fn_ok(#[trigger] fs[i], i, fn_names(fs.take(i)))
    &&& main_ok(fs[COMPLEXITY as int], fs.take(COMPLEXITY as int))
}

impl Block {
    /// Create the main block. This just handles initial setup and calls the functions that should
    /// be fuzzed
    pub fn init_main_block(functions: &[Function]) -> (r: Block)
        ensures
            main_block_ok(r, functions@),
    {
        let mut block = Block { stmt_list: Vec::new(), variables: Vec::new() };

        // Allocate a global buffer to hold argv and write fuzz-input it
        block.stmt_list.push(Operation::ArgvCheck);
        block.stmt_list.push(Operation::OpenFile);
        block.stmt_list.push(Operation::AllocInputBuf);
        block.stmt_list.push(Operation::ReadFile);

        // Create a call to all functions
        let mut i: usize = 0;
        while i < functions.len()
            invariant
                i <= functions@.len(),
                block.variables@.len() == 0,
                block.stmt_list@.len() == 4 + i,
                block.stmt_list@[0] is ArgvCheck && block.stmt_list@[1] is OpenFile && block.stmt_list@[2] is AllocInputBuf
                    && block.stmt_list@[3] is ReadFile,
                forall|j: int| 0 <= j < i ==> match #[trigger] block.stmt_list@[4 + j] {
                    Operation::CallFunc(n, t, a) => n@ == functions@[j].name@ && t == functions@[j].typ && a@
                        == functions@[j].arguments@.map_values(|p: (Type, String)| p.0),
                    _ => false,
                },
            decreases functions@.len() - i,
        {
            let func = &functions[i];
            let mut types: Vec<Type> = Vec::new();
            let mut k: usize = 0;
            while k < func.arguments.len()
                invariant
                    k <= func.arguments@.len(),
                    types@ == func.arguments@.take(k as int).map_values(|p: (Type, String)| p.0),
                decreases func.arguments@.len() - k,
            {
                types.push(func.arguments[k].0);
                assert(func.arguments@.take(k + 1) =~= func.arguments@.take(k as int).push(func.arguments@[k as int]));
                k = k + 1;
            }
            assert(func.arguments@.take(k as int) =~= func.arguments@);
            block.stmt_list.push(Operation::CallFunc(func.name.clone(), func.typ, types));
            i = i + 1;
        }
        block
    }
}

impl Program {
    /// A program without functions
    pub fn default() -> (r: Program)
        ensures
            r.function_list@.len() == 0,
    {
        Self { function_list: Vec::new() }
    }

    /// Generate a program: `COMPLEXITY` functions of random blocks, then `main`
    pub fn create_program(rng: &mut Rng) -> (r: Program)
        ensures
            program_ok(r),
            heights_fit(r),
    {
        let mut program = Program::default();

        // Create random generated functions that can be called from main
        let mut i: usize = 0;
        while i < COMPLEXITY
            invariant
                i <= COMPLEXITY,
                program.function_list@.len() == i,
                forall|j: int| 0 <= j < i ==> fn_ok(
                    #[trigger] program.function_list@[j],
                    j,
                    fn_names(program.function_list@.take(j)),
                ),
            decreases COMPLEXITY - i,
        {
            let mut name = String::from_str("func_");
            name.append(dec_usize(i + 1).as_str());
            let mut arguments: Vec<(Type, String)> = Vec::new();
            arguments.push((Type::Buffer, String::from_str("buf")));
            let body = Block::init_new_block(rng, &program, COMPLEXITY, 0);
            let ghost before = program.function_list@;
            program.function_list.push(Function { name, typ: Type::Void, arguments, body });
            assert forall|j: int| 0 <= j <= i implies fn_ok(
                #[trigger] program.function_list@[j],
                j,
                fn_names(program.function_list@.take(j)),
            ) by {
                assert(program.function_list@.take(j) =~= before.take(j));
                if j == i {
                    assert(before.take(j) =~= before);
                }
            }
            i = i + 1;
        }

        // Create main function
        let ghost funcs = program.function_list@;
        program.create_main();
        assert forall|j: int| 0 <= j < COMPLEXITY implies fn_ok(
            #[trigger] program.function_list@[j],
            j,
            fn_names(program.function_list@.take(j)),
        ) by {
            assert(program.function_list@[j] == program.function_list@.take(COMPLEXITY as int)[j]);
            assert(program.function_list@.take(j) =~= funcs.take(j));
        }
        assert(program.function_list@.take(COMPLEXITY as int) =~= funcs);
        proof {
            lemma_generated_heights_fit(program);
        }
        program
    }

    /// Create main function. It has a special case since it requires additional initialization
    /// routines
    pub fn create_main(&mut self)
        ensures
            final(self).function_list@.len() == old(self).function_list@.len() + 1,
            final(self).function_list@.take(old(self).function_list@.len() as int) == old(self).function_list@,
            main_ok(final(self).function_list@.last(), old(self).function_list@),
    {
        let body = Block::init_main_block(self.function_list.as_slice());
        let mut arguments: Vec<(Type, String)> = Vec::new();
        arguments.push((Type::Number, String::from_str("argc")));
        arguments.push((Type::Argv, String::from_str("argv")));
        self.function_list.push(Function { name: String::from_str("main"), typ: Type::Void, arguments, body });
        assert(self.function_list@.take(old(self).function_list@.len() as int) =~= old(self).function_list@);
    }
}

/// Nesting height of a list of statements: that of its deepest `if`
pub open spec fn stmts_height(ops: Seq<Operation>) -> nat
    decreases ops,
{
    if ops.len() == 0 {
        0
    } else {
        let a = stmts_height(ops.drop_last());
        let b = stmt_height(ops.last());
        if a >= b {
            a
        } else {
            b
        }
    }
}

/// Nesting height of a statement: that of the block of an `if`, else none
pub open spec fn stmt_height(op: Operation) -> nat
    decreases op,
{
    match op {
        Operation::If(_, b) => block_height(b),
        _ => 0,
    }
}

/// Nesting height of a block: one more than that of its statements
pub open spec fn block_height(b: Block) -> nat
    decreases b,
{
    1 + stmts_height(b.stmt_list@)
}

proof fn lemma_stmt_height_le(ops: Seq<Operation>, i: int)
    requires
        0 <= i < ops.len(),
    ensures
        stmt_height(ops[i]) <= stmts_height(ops),
        stmts_height(ops.take(i)) <= stmts_height(ops),
    decreases ops.len(),
{
    if i < ops.len() - 1 {
        lemma_stmt_height_le(ops.drop_last(), i);
        assert(ops.drop_last()[i] == ops[i]);
        assert(ops.drop_last().take(i) =~= ops.take(i));
    } else {
        assert(ops.drop_last() =~= ops.take(i));
    }
}

/// The headers and the global buffer that start every generated program
pub open spec fn prelude_text() -> Seq<char> {
    "#include <stdio.h>\n"@ + "#include <stdlib.h>\n"@ + "#include <string.h>\n\n"@ + "char *buf;\n\n"@
}

/// C text of a parameter: `char **` for `argv`, else the type, a space and the name
pub open spec fn param_text(p: (Type, String)) -> Seq<char> {
    if p.0 == Type::Argv {
        "char **"@ + p.1@
    } else {
        type_text(p.0) + " "@ + p.1@
    }
}

/// C text of a list of parameters, separated by commas
pub open spec fn params_text(ps: Seq<(Type, String)>) -> Seq<char>
    decreases ps.len(),
{
    if ps.len() == 0 {
        seq![]
    } else if ps.len() == 1 {
        param_text(ps[0])
    } else {
        params_text(ps.drop_last()) + ", "@ + param_text(ps.last())
    }
}

/// C text of a function header
pub open spec fn header_text(f: Function) -> Seq<char> {
    type_text(f.typ) + " "@ + f.name@ + "("@ + params_text(f.arguments@) + ")\n"@
}

/// C text of the first `n` functions
pub open spec fn functions_text(fs: Seq<Function>, n: nat) -> Seq<char>
    decreases n,
{
    if n == 0 {
        seq![]
    } else {
        functions_text(fs, (n - 1) as nat) + header_text(fs[n - 1]) + block_text(fs[n - 1].body, 0)
    }
}

/// C text of a program
pub open spec fn program_text(p: Program) -> Seq<char> {
    prelude_text() + functions_text(p.function_list@, p.function_list@.len())
}

/// The blocks of the program are nested shallowly enough to count their depth
pub open spec fn heights_fit(p: Program) -> bool {
    forall|i: int| 0 <= i < p.function_list@.len() ==> block_height((#[trigger] p.function_list@[i]).body)
        <= usize::MAX
}

fn insert_indent(code: &mut String, depth: usize)
    ensures
        final(code)@ == old(code)@ + indent(depth as nat),
{
    let ghost start = code@;
    let mut k: usize = 0;
    while k < depth
        invariant
            k <= depth,
            code@ == start + indent(k as nat),
        decreases depth - k,
    {
        code.append("    ");
        k = k + 1;
        assert(code@ =~= start + indent(k as nat));
    }
    assert(start + indent(0) =~= start);
}

fn emit_operation(code: &mut String, depth: usize, op: &Operation)
    requires
        depth + stmt_height(*op) <= usize::MAX,
    ensures
        final(code)@ == old(code)@ + stmt_text(*op, depth as nat),
    decreases *op,
{
    let ghost start = code@;
    insert_indent(code, depth);
    match op {
        Operation::If(_, b) => {
            code.append(op.text().as_str());
            code.append("\n");
            translate_block(code, depth, b);
        },
        _ => {
            code.append(op.text().as_str());
            code.append(";\n");
        },
    }
    assert(code@ =~= start + stmt_text(*op, depth as nat));
}

fn translate_block(code: &mut String, depth: usize, b: &Block)
    requires
        depth + block_height(*b) <= usize::MAX,
    ensures
        final(code)@ == old(code)@ + block_text(*b, depth as nat),
    decreases *b,
{
    let ghost start = code@;
    insert_indent(code, depth);
    code.append("{\n");
    let ghost head = code@;
    let ops = &b.stmt_list;
    let mut i: usize = 0;
    while i < ops.len()
        invariant
            i <= ops@.len(),
            ops@ == b.stmt_list@,
            depth + block_height(*b) <= usize::MAX,
            code@ == head + stmts_text(ops@.take(i as int), (depth + 1) as nat),
        decreases ops@.len() - i,
    {
        proof {
            lemma_stmt_height_le(ops@, i as int);
        }
        emit_operation(code, depth + 1, &ops[i]);
        proof {
            let t = ops@.take(i + 1);
            assert(t.drop_last() =~= ops@.take(i as int));
            assert(t.last() == ops@[i as int]);
        }
        i = i + 1;
    }
    assert(ops@.take(i as int) =~= ops@);
    insert_indent(code, depth);
    code.append("}\n\n");
    assert(code@ =~= start + block_text(*b, depth as nat));
}

fn emit_params(code: &mut String, ps: &Vec<(Type, String)>)
    ensures
        final(code)@ == old(code)@ + params_text(ps@),
{
    let ghost start = code@;
    let mut first = true;
    let mut i: usize = 0;
    while i < ps.len()
        invariant
            i <= ps@.len(),
            first <==> i == 0,
            code@ == start + params_text(ps@.take(i as int)),
        decreases ps@.len() - i,
    {
        let ghost before = code@;
        if first {
            first = false;
        } else {
            code.append(", ");
        }
        if ps[i].0 == Type::Argv {
            code.append("char **");
            code.append(ps[i].1.as_str());
        } else {
            code.append(ps[i].0.text());
            code.append(" ");
            code.append(ps[i].1.as_str());
        }
        proof {
            let t = ps@.take(i + 1);
            assert(t.drop_last() =~= ps@.take(i as int));
            assert(t.last() == ps@[i as int]);
            if i == 0 {
                assert(ps@.take(0) =~= Seq::<(Type, String)>::empty());
                assert(code@ =~= start + param_text(ps@[0]));
            } else {
                assert(code@ =~= before + ", "@ + param_text(ps@[i as int]));
            }
        }
        i = i + 1;
    }
    assert(ps@.take(i as int) =~= ps@);
}

/// Contains information that the compiler functions require while generating the c code from the
/// intermediate representation
#[derive(Debug)]
pub struct Compiler {
    /// Scope depth, used to handle indentation
    pub cur_depth: usize,
    /// The actual c code that will be compiled
    pub code: String,
    /// The program being generated in an intermediate representation
    pub program: Program,
}

impl Compiler {
    /// Create a new compiler object
    pub fn new(program: Program) -> (r: Self)
        ensures
            r.cur_depth == 0,
            r.code@ == Seq::<char>::empty(),
            r.program == program,
    {
        Self { cur_depth: 0, code: String::new(), program }
    }

    /// Setup headers and translate each function in turn
    pub fn translate_program(&mut self)
        requires
            heights_fit(old(self).program),
        ensures
            final(self).code@ == old(self).code@ + program_text(old(self).program),
            final(self).program == old(self).program,
    {
        let ghost start = self.code@;
        self.code.append("#include <stdio.h>\n");
        self.code.append("#include <stdlib.h>\n");
        self.code.append("#include <string.h>\n\n");
        self.code.append("char *buf;\n\n");
        let ghost head = self.code@;
        assert(head =~= start + prelude_text());
        let mut i: usize = 0;
        while i < self.program.function_list.len()
            invariant
                i <= self.program.function_list@.len(),
                self.program == old(self).program,
                heights_fit(self.program),
                self.code@ == head + functions_text(self.program.function_list@, i as nat),
            decreases self.program.function_list@.len() - i,
        {
            self.translate_function_header(i);
            self.translate_function_body(i);
            i = i + 1;
        }
    }

    /// Translate the header of a function to c
    fn translate_function_header(&mut self, index: usize)
        requires
            index < old(self).program.function_list@.len(),
        ensures
            final(self).code@ == old(self).code@ + header_text(old(self).program.function_list@[index as int]),
            final(self).program == old(self).program,
            final(self).cur_depth == old(self).cur_depth,
    {
        let ghost start = self.code@;
        let func = &self.program.function_list[index];
        let mut text = String::from_str(func.typ.text());
        text.append(" ");
        text.append(func.name.as_str());
        text.append("(");
        emit_params(&mut text, &func.arguments);
        text.append(")\n");
        self.code.append(text.as_str());
        assert(self.code@ =~= start + header_text(self.program.function_list@[index as int]));
    }

    /// Translate the body of a function
    fn translate_function_body(&mut self, index: usize)
        requires
            index < old(self).program.function_list@.len(),
            block_height(old(self).program.function_list@[index as int].body) <= usize::MAX,
        ensures
            final(self).code@ == old(self).code@ + block_text(old(self).program.function_list@[index as int].body, 0),
            final(self).program == old(self).program,
            final(self).cur_depth == old(self).cur_depth,
    {
        let mut text = String::new();
        translate_block(&mut text, 0, &self.program.function_list[index].body);
        self.code.append(text.as_str());
    }
}

/// The statements call the function `name`, directly or inside an `if`
pub open spec fn stmts_call(ops: Seq<Operation>, name: Seq<char>) -> bool
    decreases ops,
{
    ops.len() > 0 && (stmts_call(ops.drop_last(), name) || stmt_calls(ops.last(), name))
}

/// The statement calls the function `name`, directly or inside an `if`
pub open spec fn stmt_calls(op: Operation, name: Seq<char>) -> bool
    decreases op,
{
    match op {
        Operation::CallFunc(n, _, _) => n@ == name,
        Operation::If(_, b) => block_calls(b, name),
        _ => false,
    }
}

/// The block calls the function `name`, at any depth
pub open spec fn block_calls(b: Block, name: Seq<char>) -> bool
    decreases b,
{
    stmts_call(b.stmt_list@, name)
}

proof fn lemma_stmts_call_witness(ops: Seq<Operation>, name: Seq<char>)
    requires
        stmts_call(ops, name),
    ensures
        exists|i: int| 0 <= i < ops.len() && stmt_calls(#[trigger] ops[i], name),
    decreases ops.len(),
{
    if stmts_call(ops.drop_last(), name) {
        lemma_stmts_call_witness(ops.drop_last(), name);
        let i = choose|i: int| 0 <= i < ops.drop_last().len() && stmt_calls(#[trigger] ops.drop_last()[i], name);
        assert(ops[i] == ops.drop_last()[i]);
    } else {
        assert(stmt_calls(ops[ops.len() - 1], name));
    }
}

proof fn lemma_block_calls_named(b: Block, complexity: nat, depth: nat, names: Seq<Seq<char>>, name: Seq<char>)
    requires
        block_ok(b, complexity, depth, names),
        block_calls(b, name),
    ensures
        names.contains(name),
    decreases complexity,
{
    let s = b.stmt_list@;
    let v = b.variables@;
    lemma_stmts_call_witness(s, name);
    let i = choose|i: int| 0 <= i < s.len() && stmt_calls(#[trigger] s[i], name);
    if depth >= MIN_DEPTH && s.len() == 1 && v.len() == 0 && terminator_ok(s[0], names) {
        assert(i == 0);
    } else {
        if i < v.len() {
            assert(simple_ok(s[i]));
        } else {
            assert(if_ok(s[i], v, complexity, depth, names));
            match s[i] {
                Operation::If(_, inner) => {
                    lemma_block_calls_named(inner, (complexity - 1) as nat, depth + 1, names, name);
                },
                _ => {},
            }
        }
    }
}

/// A generated function calls only functions generated before it, so the generated program
/// never recurses.
pub proof fn lemma_calls_go_backwards(p: Program, i: int, name: Seq<char>)
    requires
        program_ok(p),
        0 <= i < COMPLEXITY,
        block_calls(p.function_list@[i].body, name),
    ensures
        exists|j: int| 0 <= j < i && (#[trigger] p.function_list@[j]).name@ == name,
{
    let fs = p.function_list@;
    assert(fn_ok(fs[i], i, fn_names(fs.take(i))));
    lemma_block_calls_named(fs[i].body, COMPLEXITY as nat, 0, fn_names(fs.take(i)), name);
    let names = fn_names(fs.take(i));
    let k = choose|k: int| 0 <= k < names.len() && names[k] == name;
    assert(fs.take(i)[k] == fs[k]);
}

/// The `main` of a generated program calls every generated function.
pub proof fn lemma_main_calls_all(p: Program, i: int)
    requires
        program_ok(p),
        0 <= i < COMPLEXITY,
    ensures
        block_calls(p.function_list@[COMPLEXITY as int].body, p.function_list@[i].name@),
{
    let fs = p.function_list@;
    let main = fs[COMPLEXITY as int];
    let s = main.body.stmt_list@;
    let name = fs[i].name@;
    assert(fs.take(COMPLEXITY as int)[i] == fs[i]);
    assert(stmt_calls(s[4 + i], name));
    assert forall|n: nat| 4 + i < n <= s.len() implies stmts_call(#[trigger] s.take(n as int), name) by {
        lemma_stmts_call_prefix(s, (4 + i) as nat, n, name);
    }
    assert(s.take(s.len() as int) =~= s);
}

proof fn lemma_stmts_call_prefix(s: Seq<Operation>, k: nat, n: nat, name: Seq<char>)
    requires
        k < n <= s.len(),
        stmt_calls(s[k as int], name),
    ensures
        stmts_call(s.take(n as int), name),
    decreases n,
{
    let t = s.take(n as int);
    if n == k + 1 {
        assert(t.last() == s[k as int]);
    } else {
        lemma_stmts_call_prefix(s, k, (n - 1) as nat, name);
        assert(t.drop_last() =~= s.take(n - 1));
    }
}

proof fn lemma_stmts_height_bound(ops: Seq<Operation>, h: nat)
    requires
        forall|i: int| 0 <= i < ops.len() ==> stmt_height(#[trigger] ops[i]) <= h,
    ensures
        stmts_height(ops) <= h,
    decreases ops.len(),
{
    if ops.len() > 0 {
        assert forall|i: int| 0 <= i < ops.drop_last().len() implies stmt_height(#[trigger] ops.drop_last()[i]) <= h by {
            assert(ops.drop_last()[i] == ops[i]);
        }
        lemma_stmts_height_bound(ops.drop_last(), h);
        assert(stmt_height(ops[ops.len() - 1]) <= h);
    }
}

proof fn lemma_block_height(b: Block, complexity: nat, depth: nat, names: Seq<Seq<char>>)
    requires
        block_ok(b, complexity, depth, names),
    ensures
        block_height(b) <= complexity + 1,
    decreases complexity,
{
    let s = b.stmt_list@;
    let v = b.variables@;
    assert forall|i: int| 0 <= i < s.len() implies stmt_height(#[trigger] s[i]) <= complexity by {
        if depth >= MIN_DEPTH && s.len() == 1 && v.len() == 0 && terminator_ok(s[0], names) {
        } else if i < v.len() {
            assert(simple_ok(s[i]));
        } else {
            assert(if_ok(s[i], v, complexity, depth, names));
            match s[i] {
                Operation::If(_, inner) => {
                    lemma_block_height(inner, (complexity - 1) as nat, depth + 1, names);
                },
                _ => {},
            }
        }
    }
    lemma_stmts_height_bound(s, complexity);
}

/// The blocks of a generated program are nested no deeper than `COMPLEXITY + 1`, so the
/// compiler can count their depth.
pub proof fn lemma_generated_heights_fit(p: Program)
    requires
        program_ok(p),
    ensures
        heights_fit(p),
{
    let fs = p.function_list@;
    assert forall|i: int| 0 <= i < fs.len() implies block_height((#[trigger] fs[i]).body) <= usize::MAX by {
        if i < COMPLEXITY {
            assert(fn_ok(fs[i], i, fn_names(fs.take(i))));
            lemma_block_height(fs[i].body, COMPLEXITY as nat, 0, fn_names(fs.take(i)));
        } else {
            let s = fs[i].body.stmt_list@;
            assert forall|k: int| 0 <= k < s.len() implies stmt_height(#[trigger] s[k]) <= 0 by {
                if k >= 4 {
                    assert(s[4 + (k - 4)] == s[k]);
                }
            }
            lemma_stmts_height_bound(s, 0);
        }
    }
}

} // verus!
