//! What the command line tool does with its arguments: which of them are
//! options, which are ULID strings to check, and how the run ends.

use crate::crockford::decoding_u128;
use crate::ulid::Ulid;
use core::str::FromStr;
use vstd::prelude::*;

verus! {

/// What a run of the tool has to do.
#[derive(Debug)]
pub enum Plan {
    /// Print the version and end with success.
    Version,
    /// Print the help text and end with success.
    Help,
    /// Generate a ULID and print it, with its date and time if `verbose`.
    Generate { verbose: bool },
    /// Report on the strings that were given: print each of `valid`, with
    /// its date and time, if `verbose`, and then name the `broken` ones, if
    /// there are any.
    Check { verbose: bool, valid: Vec<Ulid>, broken: Vec<String> },
}

/// The arguments as sequences of characters.
pub open spec fn texts(args: Seq<String>) -> Seq<Seq<char>> {
    args.map_values(|arg: String| arg@)
}

/// `arg` asks for verbose output.
pub open spec fn is_verbose(arg: Seq<char>) -> bool {
    arg == "-v"@ || arg == "--verbose"@
}

/// `arg` asks for the help text.
pub open spec fn is_help(arg: Seq<char>) -> bool {
    arg == "-h"@ || arg == "--help"@
}

/// `arg` asks for the version.
pub open spec fn is_version(arg: Seq<char>) -> bool {
    arg == "-V"@ || arg == "--version"@
}

/// `arg` is one of the six options.
pub open spec fn is_option(arg: Seq<char>) -> bool {
    is_verbose(arg) || is_help(arg) || is_version(arg)
}

/// The arguments that are no options, in their order: the strings to check.
pub open spec fn candidates(args: Seq<Seq<char>>) -> Seq<Seq<char>>
    decreases args.len(),
{
    if args.len() == 0 {
        Seq::empty()
    } else if is_option(args.last()) {
        candidates(args.drop_last())
    } else {
        candidates(args.drop_last()).push(args.last())
    }
}

/// The numbers of the strings that are ULIDs, in their order.
pub open spec fn valid_numbers(strings: Seq<Seq<char>>) -> Seq<nat>
    decreases strings.len(),
{
    if strings.len() == 0 {
        Seq::empty()
    } else {
        match decoding_u128(strings.last()) {
            Ok(number) => valid_numbers(strings.drop_last()).push(number),
            Err(_) => valid_numbers(strings.drop_last()),
        }
    }
}

/// The strings that are no ULIDs, in their order.
pub open spec fn broken_strings(strings: Seq<Seq<char>>) -> Seq<Seq<char>>
    decreases strings.len(),
{
    if strings.len() == 0 {
        Seq::empty()
    } else {
        match decoding_u128(strings.last()) {
            Ok(_) => broken_strings(strings.drop_last()),
            Err(_) => broken_strings(strings.drop_last()).push(strings.last()),
        }
    }
}

/// The numbers of the ULIDs in `ulids`.
pub open spec fn numbers(ulids: Seq<Ulid>) -> Seq<nat> {
    ulids.map_values(|ulid: Ulid| ulid@)
}

/// What the arguments ask for. A request for the version goes before one for
/// the help text, and both go before everything else; without a string to
/// check, a ULID is generated.
pub open spec fn plan_matches(plan: Plan, args: Seq<Seq<char>>) -> bool {
    if exists|i: int| 0 <= i < args.len() && is_version(args[i]) {
        plan is Version
    } else if exists|i: int| 0 <= i < args.len() && is_help(args[i]) {
        plan is Help
    } else {
        let verbose = exists|i: int| 0 <= i < args.len() && is_verbose(args[i]);
        if candidates(args).len() == 0 {
            plan == (Plan::Generate { verbose })
        } else {
            &&& plan matches Plan::Check { verbose: v, valid, broken }
            &&& v == verbose
            &&& numbers(valid@) == valid_numbers(candidates(args))
            &&& texts(broken@) == broken_strings(candidates(args))
        }
    }
}

/// Whether `arg` is the text `option`.
fn is_text(arg: &String, option: &str) -> (same: bool)
    ensures
        same == (arg@ == option@),
{
    let text = option.to_owned();
    *arg == text
}

/// Decides what to do with the arguments of the command line.
pub fn plan(args: &Vec<String>) -> (plan: Plan)
    ensures
        plan_matches(plan, texts(args@)),
{
    let ghost all = texts(args@);
    let mut verbose = false;
    let mut help = false;
    let mut version = false;
    let mut valid: Vec<Ulid> = Vec::new();
    let mut broken: Vec<String> = Vec::new();
    let ghost mut seen: Seq<Seq<char>> = Seq::empty();
    let mut i: usize = 0;
    while i < args.len()
        invariant
            i <= args.len(),
            all == texts(args@),
            all.len() == args.len(),
            seen == candidates(all.take(i as int)),
            verbose == exists|j: int| 0 <= j < i && is_verbose(all[j]),
            help == exists|j: int| 0 <= j < i && is_help(all[j]),
            version == exists|j: int| 0 <= j < i && is_version(all[j]),
            numbers(valid@) == valid_numbers(seen),
            texts(broken@) == broken_strings(seen),
        decreases args.len() - i,
    {
        let arg = &args[i];
        proof {
            assert(all[i as int] == arg@);
            assert(all.take(i + 1).drop_last() =~= all.take(i as int));
            assert(all.take(i + 1).last() == arg@);
        }
        let ghost was_verbose = verbose;
        let ghost was_help = help;
        let ghost was_version = version;
        if is_text(arg, "-v") || is_text(arg, "--verbose") {
            verbose = true;
        } else if is_text(arg, "-h") || is_text(arg, "--help") {
            help = true;
        } else if is_text(arg, "-V") || is_text(arg, "--version") {
            version = true;
        } else {
            proof {
                assert(seen.push(arg@).drop_last() =~= seen);
            }
            match Ulid::from_str(arg.as_str()) {
                Ok(ulid) => {
                    valid.push(ulid);
                    proof {
                        assert(numbers(valid@) =~= valid_numbers(seen).push(ulid@));
                    }
                },
                Err(_) => {
                    let copy = arg.clone();
                    broken.push(copy);
                    proof {
                        assert(texts(broken@) =~= broken_strings(seen).push(arg@));
                    }
                },
            }
            proof {
                seen = seen.push(arg@);
            }
        }
        proof {
            lemma_options_differ();
            assert(verbose == (was_verbose || is_verbose(all[i as int])));
            assert(help == (was_help || is_help(all[i as int])));
            assert(version == (was_version || is_version(all[i as int])));
        }
        i += 1;
    }
    proof {
        assert(all.take(args.len() as int) =~= all);
    }
    if version {
        Plan::Version
    } else if help {
        Plan::Help
    } else if valid.len() == 0 && broken.len() == 0 {
        proof {
            lemma_all_sorted(seen);
        }
        Plan::Generate { verbose }
    } else {
        proof {
            lemma_all_sorted(seen);
        }
        Plan::Check { verbose, valid, broken }
    }
}

/// The options are six different texts.
proof fn lemma_options_differ()
    ensures
        forall|arg: Seq<char>| !(is_verbose(arg) && is_help(arg)),
        forall|arg: Seq<char>| !(is_verbose(arg) && is_version(arg)),
        forall|arg: Seq<char>| !(is_help(arg) && is_version(arg)),
{
    reveal_strlit("-v");
    reveal_strlit("--verbose");
    reveal_strlit("-h");
    reveal_strlit("--help");
    reveal_strlit("-V");
    reveal_strlit("--version");
    assert forall|arg: Seq<char>| !(is_verbose(arg) && is_help(arg)) by {
        if is_verbose(arg) && is_help(arg) {
            assert(arg[1] == 'v' || arg[2] == 'v');
            assert(arg[1] == 'h' || arg[2] == 'h');
        }
    }
    assert forall|arg: Seq<char>| !(is_verbose(arg) && is_version(arg)) by {
        if is_verbose(arg) && is_version(arg) {
            assert(arg[1] == 'v' || arg[5] == 'b');
            assert(arg[1] == 'V' || arg[5] == 's');
            assert(arg.len() == 2 ==> arg[1] == 'v' && arg[1] == 'V');
        }
    }
    assert forall|arg: Seq<char>| !(is_help(arg) && is_version(arg)) by {
        if is_help(arg) && is_version(arg) {
            assert(arg[1] == 'h' || arg[2] == 'h');
            assert(arg[1] == 'V' || arg[2] == 'v');
        }
    }
}

/// Every string is either a ULID or broken.
pub proof fn lemma_all_sorted(strings: Seq<Seq<char>>)
    ensures
        valid_numbers(strings).len() + broken_strings(strings).len() == strings.len(),
    decreases strings.len(),
{
    if strings.len() > 0 {
        lemma_all_sorted(strings.drop_last());
    }
}

impl Plan {
    /// The exit code: it is 1 where a string that was given is no ULID, and
    /// 0 otherwise.
    pub fn exit_code(&self) -> (code: i32)
        ensures
            code == if self matches Plan::Check { broken, .. } && broken@.len() > 0 {
                1i32
            } else {
                0i32
            },
    {
        match self {
            Plan::Check { broken, .. } => {
                if broken.len() > 0 {
                    1
                } else {
                    0
                }
            },
            _ => 0,
        }
    }
}

} // verus!
