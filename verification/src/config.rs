use vstd::prelude::*;

verus! {

/// Size of memory space allocated for each thread's virtual address space
pub const MAX_GUEST_ADDR: usize = 64 * 1024 * 1024;

/// Method used to track coverage, currently only Edge and Block coverage is implemented
#[derive(Eq, PartialEq, Copy, Clone, Debug, Structural)]
pub enum CovMethod {
    /// Don't track coverage
    Disabled,
    /// Track block level coverage without hit-counters (basically free performance wise)
    Block,
    /// Track edge level coverage without hit-counters
    Edge,
}

/// The command-line arguments of the fuzzer
#[derive(Debug)]
pub struct Cli {
    /// Input directory that should contain the initial seed files
    pub input_dir: String,
    /// Output directory that will be used to eg. save crashes
    pub output_dir: String,
    /// Print version information
    pub version: bool,
    /// Print help information
    pub help: bool,
    /// The number of threads to run this fuzzer with
    pub num_threads: usize,
    /// Disables permission checking
    pub no_perm_checks: bool,
    /// File extension for the fuzz test input file if the target requires it
    pub extension: Option<String>,
    /// Enable a rolling debug-print in place of the default print-window
    pub debug_print: bool,
    /// Take a snapshot of the target at the given address and start later cases from it
    pub snapshot: Option<String>,
    /// Override the timeout that is otherwise set during calibration
    pub override_timeout: Option<u64>,
    /// Collect a full register trace of program execution (single-threaded only)
    pub full_trace: bool,
    /// Coverage method, `edge` or `block`
    pub cov_method: String,
    /// The target to be fuzzed alongside its arguments
    pub fuzzed_app: Vec<String>,
}

/// The number that `parse_int::parse` reads from the text (decimal, or with a `0x`, `0o` or `0b`
/// prefix), if it reads one
pub uninterp spec fn parsed_usize(text: Seq<char>) -> Option<usize>;

/// `parse_int::parse::<usize>`: the text as a number with an optional radix prefix. Its result
/// depends on the text alone; it is named `parsed_usize` and not described further.
#[verifier::external_body]
fn parse_address(text: &str) -> (r: Option<usize>)
    ensures
        r == parsed_usize(text@),
{
    parse_int::parse::<usize>(text).ok()
}

/// What the command line sets up, beyond the values it holds itself
#[derive(Debug)]
pub struct Settings {
    /// Position of the `@@` argument that the fuzz input's file name replaces
    pub fuzz_arg_index: usize,
    /// Address at which to take the snapshot, if requested
    pub snapshot_addr: Option<usize>,
    /// How coverage is tracked
    pub cov_method: CovMethod,
}

/// Why a command line cannot be used
#[derive(Debug)]
pub enum CliError {
    /// The fuzzer stops with this message
    Message(String),
    /// The snapshot address is not a number
    BadSnapshot,
}

/// The coverage method that a name selects
pub open spec fn cov_method_named(name: Seq<char>) -> Option<CovMethod> {
    if name == "edge"@ {
        Some(CovMethod::Edge)
    } else if name == "block"@ {
        Some(CovMethod::Block)
    } else {
        None
    }
}

/// The first argument that is `@@`
pub open spec fn fuzz_arg(args: Seq<String>) -> Option<int> {
    if exists|i: int| 0 <= i < args.len() && args[i]@ == "@@"@ {
        Some(choose|i: int| 0 <= i < args.len() && args[i]@ == "@@"@ && forall|j: int| 0 <= j < i ==> args[j]@ != "@@"@)
    } else {
        None
    }
}

/// The message with which the fuzzer stops on this command line, if any, in the order in which
/// it checks: a target, the two directories, the `@@` marker, the snapshot address, the coverage
/// method, and single-threaded tracing
pub open spec fn cli_outcome(args: Cli, input_is_dir: bool, output_is_dir: bool) -> Result<Settings, Seq<char>> {
    if args.fuzzed_app@.len() == 0 {
        Err("You need to specify the target to be fuzzed"@)
    } else if !input_is_dir {
        Err("You need to specify a valid input directory"@)
    } else if !output_is_dir {
        Err("You need to specify a valid output directory"@)
    } else if fuzz_arg(args.fuzzed_app@) is None {
        Err("You need to specify how the fuzz-case input files should be passed in. This can be done using the `@@` flag as shown in the example under `Usage`."@)
    } else if args.snapshot is Some && parsed_usize(args.snapshot.unwrap()@) is None {
        Err(Seq::empty())
    } else if cov_method_named(args.cov_method@) is None {
        Err("You're specified coverage method is not supported, please chose `edge` or `block`"@)
    } else if args.full_trace && args.num_threads != 1 {
        Err("Full Trace mode only works when running single-threaded"@)
    } else {
        Ok(Settings {
            fuzz_arg_index: fuzz_arg(args.fuzzed_app@).unwrap() as usize,
            snapshot_addr: match args.snapshot {
                Some(s) => parsed_usize(s@),
                None => None,
            },
            cov_method: cov_method_named(args.cov_method@).unwrap(),
        })
    }
}

/// Check the command line and work out what it sets up. `input_is_dir` and `output_is_dir` say
/// whether the two directories exist. A snapshot address that is not a number is reported apart
/// from the other problems, which come with the message the fuzzer stops with.
pub fn check_cli(args: &Cli, input_is_dir: bool, output_is_dir: bool) -> (r: Result<Settings, CliError>)
    ensures
        match cli_outcome(*args, input_is_dir, output_is_dir) {
            Ok(s) => r matches Ok(t) && t.fuzz_arg_index == s.fuzz_arg_index && t.snapshot_addr
                == s.snapshot_addr && t.cov_method == s.cov_method,
            Err(m) => if args.fuzzed_app@.len() > 0 && input_is_dir && output_is_dir && fuzz_arg(
                args.fuzzed_app@,
            ) is Some && args.snapshot is Some && parsed_usize(args.snapshot.unwrap()@) is None {
                r matches Err(CliError::BadSnapshot)
            } else {
                r matches Err(CliError::Message(e)) && e@ == m
            },
        },
{
    if args.fuzzed_app.len() == 0 {
        return Err(CliError::Message("You need to specify the target to be fuzzed".to_owned()));
    }
    if !input_is_dir {
        return Err(CliError::Message("You need to specify a valid input directory".to_owned()));
    }
    if !output_is_dir {
        return Err(CliError::Message("You need to specify a valid output directory".to_owned()));
    }

    // Find the `@@` that marks where the fuzz input's file name goes
    let marker = "@@".to_owned();
    let mut index: usize = 0;
    while index < args.fuzzed_app.len()
        invariant
            index <= args.fuzzed_app@.len(),
            marker@ == "@@"@,
            forall|j: int| 0 <= j < index ==> args.fuzzed_app@[j]@ != "@@"@,
        ensures
            index <= args.fuzzed_app@.len(),
            forall|j: int| 0 <= j < index ==> args.fuzzed_app@[j]@ != "@@"@,
            index < args.fuzzed_app@.len() ==> args.fuzzed_app@[index as int]@ == "@@"@,
        decreases args.fuzzed_app@.len() - index,
    {
        if args.fuzzed_app[index] == marker {
            break;
        }
        index = index + 1;
    }
    if index == args.fuzzed_app.len() {
        return Err(CliError::Message(
            "You need to specify how the fuzz-case input files should be passed in. This can be done using the `@@` flag as shown in the example under `Usage`.".to_owned(),
        ));
    }
    proof {
        let f = fuzz_arg(args.fuzzed_app@);
        assert(args.fuzzed_app@[index as int]@ == "@@"@);
        let c = f.unwrap();
        if c < index {
            assert(args.fuzzed_app@[c]@ != "@@"@);
        }
        if c > index {
            assert(args.fuzzed_app@[index as int]@ != "@@"@);
        }
    }

    // Set snapshot address if requested
    let snapshot_addr = match &args.snapshot {
        Some(ss) => match parse_address(ss.as_str()) {
            Some(a) => Some(a),
            None => return Err(CliError::BadSnapshot),
        },
        None => None,
    };

    // Set the coverage collection method
    let edge = "edge".to_owned();
    let block = "block".to_owned();
    let cov_method = if args.cov_method == edge {
        CovMethod::Edge
    } else if args.cov_method == block {
        CovMethod::Block
    } else {
        return Err(CliError::Message(
            "You're specified coverage method is not supported, please chose `edge` or `block`".to_owned(),
        ));
    };

    // Trace mode
    if args.full_trace && args.num_threads != 1 {
        return Err(CliError::Message("Full Trace mode only works when running single-threaded".to_owned()));
    }
    Ok(Settings { fuzz_arg_index: index, snapshot_addr, cov_method })
}


/// The timeout that calibration sets: five times the mean number of instructions that the seeds
/// took, the mean rounded down
pub fn calibrated_timeout(total_instrs: u64, num_inputs: u64) -> (r: u64)
    requires
        num_inputs > 0,
        total_instrs / num_inputs * 5 <= u64::MAX,
    ensures
        r == total_instrs / num_inputs * 5,
{
    (total_instrs / num_inputs) * 5
}

/// `e` divided by 10, rounded towards zero as integer division rounds
pub open spec fn tenth(e: int) -> int {
    if e >= 0 {
        e / 10
    } else {
        -((-e) / 10)
    }
}

/// `e` raised `n` times by a tenth of itself (rounded towards zero); `None` where a step leaves
/// the range of `isize`
pub open spec fn boosted(e: int, n: nat) -> Option<int>
    decreases n,
{
    if n == 0 {
        Some(e)
    } else if isize::MIN <= e + tenth(e) <= isize::MAX {
        boosted(e + tenth(e), (n - 1) as nat)
    } else {
        None
    }
}

/// `e - c`, held within the range of `isize`
pub open spec fn saturated_sub(e: int, c: int) -> int {
    if e - c < isize::MIN {
        isize::MIN as int
    } else if e - c > isize::MAX {
        isize::MAX as int
    } else {
        e - c
    }
}

/// `e` held within 20000 ..= 150000
pub open spec fn energy_bounds(e: int) -> int {
    if e < 20000 {
        20000
    } else if e > 150000 {
        150000
    } else {
        e
    }
}

/// Raise `e` by a tenth of itself `n` times; `None` where a step overflows
fn boost(e: isize, n: usize) -> (r: Option<isize>)
    ensures
        r matches Some(v) ==> boosted(e as int, n as nat) == Some(v as int),
        r is None ==> boosted(e as int, n as nat) is None,
{
    let mut cur = e;
    let mut k: usize = 0;
    while k < n
        invariant
            k <= n,
            boosted(e as int, n as nat) == boosted(cur as int, (n - k) as nat),
        decreases n - k,
    {
        match cur.checked_add(cur / 10) {
            Some(x) => {
                cur = x;
            },
            None => {
                return None;
            },
        }
        k = k + 1;
    }
    Some(cur)
}

/// The rest of a seed's energy once the terms for its size and its speed are in: raised by a
/// tenth for each time it found new coverage and then for each new unique crash it found,
/// lowered (saturating) by the number of crashes it found, and held within 20000 ..= 150000.
/// `None` where raising it overflows.
pub fn finish_energy(energy: isize, cov_finds: usize, ucrashes: usize, crashes: usize) -> (r: Option<usize>)
    ensures
        r == match boosted(energy as int, cov_finds as nat) {
            Some(e1) => match boosted(e1, ucrashes as nat) {
                Some(e2) => Some(energy_bounds(saturated_sub(e2, (crashes as isize) as int)) as usize),
                None => None,
            },
            None => None,
        },
{
    let e1 = match boost(energy, cov_finds) {
        Some(v) => v,
        None => return None,
    };
    let e2 = match boost(e1, ucrashes) {
        Some(v) => v,
        None => return None,
    };
    let c = crashes as isize;
    let e3 = match e2.checked_sub(c) {
        Some(v) => v,
        None => if c > 0 {
            isize::MIN
        } else {
            isize::MAX
        },
    };
    let e4 = if e3 < 20000 {
        20000
    } else if e3 > 150000 {
        150000
    } else {
        e3
    };
    Some(e4 as usize)
}

} // verus!
