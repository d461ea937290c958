//! Parsing of the raw argument list into an immutable configuration.
//!
//! Position 1 of the argument list is the query; every later token is
//! either a recognized flag or a target path. A help flag anywhere among
//! the later tokens wins over everything else.

use vstd::prelude::*;

verus! {

/// The settings of one run, immutable after construction.
pub struct Config {
    pub query_str: String,
    pub target_files: Vec<String>,
    pub case_insensitive: bool,
    pub print_line_numbers: bool,
    pub invert_match: bool,
    pub recursive_search: bool,
    pub print_filenames: bool,
    pub colored_output: bool,
}

impl Config {
    /// A run's configuration always names at least one target.
    pub open spec fn wf(&self) -> bool {
        self.target_files@.len() > 0
    }
}

/// What the argument list asks for: a search run, or the usage text.
pub enum ParsedCommand {
    Run(Config),
    Help,
}

/// The distinct argument errors, each with its own message.
pub enum ConfigError {
    NotEnoughArguments,
    NoTargets,
}

/// A token that is recognized as a plain flag (help flags aside).
pub open spec fn is_plain_flag(a: Seq<char>) -> bool {
    a == "-i"@ || a == "-n"@ || a == "-v"@ || a == "-r"@ || a == "-f"@ || a == "-c"@
}

/// A token that requests the usage text.
pub open spec fn is_help_flag(a: Seq<char>) -> bool {
    a == "-h"@ || a == "--help"@
}

/// The given flag token occurs among `args[2], ..., args[end - 1]`.
pub open spec fn flag_in(args: Seq<String>, flag: Seq<char>, end: int) -> bool {
    exists|j: int| 2 <= j < end && (#[trigger] args[j]@) == flag
}

/// A help flag occurs among `args[2], ..., args[end - 1]`.
pub open spec fn help_in(args: Seq<String>, end: int) -> bool {
    exists|j: int| 2 <= j < end && is_help_flag(#[trigger] args[j]@)
}

/// The target tokens among `args[2], ..., args[end - 1]`: every token that
/// is neither a plain flag nor a help flag, in order.
pub open spec fn targets_upto(args: Seq<String>, end: int) -> Seq<Seq<char>>
    decreases end,
{
    if end <= 2 || end > args.len() {
        Seq::empty()
    } else if is_plain_flag(args[end - 1]@) || is_help_flag(args[end - 1]@) {
        targets_upto(args, end - 1)
    } else {
        targets_upto(args, end - 1).push(args[end - 1]@)
    }
}

/// The views of a sequence of strings.
pub open spec fn views_of(strings: Seq<String>) -> Seq<Seq<char>> {
    strings.map_values(|s: String| s@)
}

/// Compares a string against a literal token.
fn token_eq(a: &String, lit: &str) -> (r: bool)
    ensures
        r == (a@ == lit@),
{
    let l = String::from_str(lit);
    *a == l
}

impl Config {
    /// Parses the raw argument list.
    ///
    /// With fewer than three arguments parsing fails; with a help flag
    /// anywhere after the query the usage text is requested; otherwise
    /// every unrecognized token is a target path, and at least one is
    /// required. Each flag may be repeated; repetition has no further
    /// effect.
    pub fn new(args: &Vec<String>) -> (r: Result<ParsedCommand, ConfigError>)
        ensures
            match r {
                Err(ConfigError::NotEnoughArguments) => args@.len() < 3,
                Err(ConfigError::NoTargets) => args@.len() >= 3 && !help_in(args@, args@.len() as int)
                    && targets_upto(args@, args@.len() as int).len() == 0,
                Ok(ParsedCommand::Help) => args@.len() >= 3 && help_in(args@, args@.len() as int),
                Ok(ParsedCommand::Run(c)) => args@.len() >= 3 && !help_in(
                    args@,
                    args@.len() as int,
                ) && c.query_str@ == args@[1]@ && views_of(c.target_files@) == targets_upto(
                    args@,
                    args@.len() as int,
                ) && c.wf() && c.case_insensitive == flag_in(
                    args@,
                    "-i"@,
                    args@.len() as int,
                ) && c.print_line_numbers == flag_in(args@, "-n"@, args@.len() as int)
                    && c.invert_match == flag_in(args@, "-v"@, args@.len() as int)
                    && c.recursive_search == flag_in(args@, "-r"@, args@.len() as int)
                    && c.print_filenames == flag_in(args@, "-f"@, args@.len() as int)
                    && c.colored_output == flag_in(args@, "-c"@, args@.len() as int),
            },
    {
        if args.len() < 3 {
            return Err(ConfigError::NotEnoughArguments);
        }

        let mut case_insensitive = false;
        let mut print_line_numbers = false;
        let mut invert_match = false;
        let mut recursive_search = false;
        let mut print_filenames = false;
        let mut colored_output = false;
        let mut target_files: Vec<String> = Vec::new();

        let n = args.len();
        let mut i: usize = 2;
        while i < n
            invariant
                n == args@.len(),
                3 <= n,
                2 <= i <= n,
                case_insensitive == flag_in(args@, "-i"@, i as int),
                print_line_numbers == flag_in(args@, "-n"@, i as int),
                invert_match == flag_in(args@, "-v"@, i as int),
                recursive_search == flag_in(args@, "-r"@, i as int),
                print_filenames == flag_in(args@, "-f"@, i as int),
                colored_output == flag_in(args@, "-c"@, i as int),
                !help_in(args@, i as int),
                views_of(target_files@) == targets_upto(args@, i as int),
            decreases n - i,
        {
            let arg = &args[i];
            if token_eq(arg, "-h") || token_eq(arg, "--help") {
                assert(help_in(args@, args@.len() as int));
                return Ok(ParsedCommand::Help);
            }
            let sets_i = token_eq(arg, "-i");
            let sets_n = token_eq(arg, "-n");
            let sets_v = token_eq(arg, "-v");
            let sets_r = token_eq(arg, "-r");
            let sets_f = token_eq(arg, "-f");
            let sets_c = token_eq(arg, "-c");
            case_insensitive = case_insensitive || sets_i;
            print_line_numbers = print_line_numbers || sets_n;
            invert_match = invert_match || sets_v;
            recursive_search = recursive_search || sets_r;
            print_filenames = print_filenames || sets_f;
            colored_output = colored_output || sets_c;
            if !(sets_i || sets_n || sets_v || sets_r || sets_f || sets_c) {
                let t = arg.clone();
                target_files.push(t);
                assert(views_of(target_files@) =~= targets_upto(args@, i + 1));
            }
            i = i + 1;
        }

        if target_files.len() == 0 {
            return Err(ConfigError::NoTargets);
        }

        let query_str = args[1].clone();
        Ok(
            ParsedCommand::Run(
                Config {
                    query_str,
                    target_files,
                    case_insensitive,
                    print_line_numbers,
                    invert_match,
                    recursive_search,
                    print_filenames,
                    colored_output,
                },
            ),
        )
    }
}

} // verus!
