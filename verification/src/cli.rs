//! Command-line argument handling: one positional input (the topology
//! document's path) and one option for the orchestrator address.

use vstd::prelude::*;

verus! {

/// What the command line asked for.
pub struct CliOptions {
    pub input: String,
    pub orchestrator: String,
}

/// The scan over the argument words: `--orchestrator` (or `-o`) takes
/// the next word as the address, `--input` (or `-i`) the next word as
/// the input path, other flag words are passed over, and the first
/// remaining word is the input path.
pub open spec fn spec_scan(
    args: Seq<Seq<char>>,
    i: int,
    input: Option<Seq<char>>,
    orch: Seq<char>,
) -> (Option<Seq<char>>, Seq<char>)
    decreases args.len() - i,
{
    if i < 0 || i >= args.len() {
        (input, orch)
    } else if (args[i] == "--orchestrator"@ || args[i] == "-o"@) && i + 1 < args.len() {
        spec_scan(args, i + 2, input, args[i + 1])
    } else if (args[i] == "--input"@ || args[i] == "-i"@) && i + 1 < args.len() {
        spec_scan(
            args,
            i + 2,
            if input is None {
                Some(args[i + 1])
            } else {
                input
            },
            orch,
        )
    } else if args[i].len() > 0 && args[i][0] == '-' {
        spec_scan(args, i + 1, input, orch)
    } else if input is None {
        spec_scan(args, i + 1, Some(args[i]), orch)
    } else {
        spec_scan(args, i + 1, input, orch)
    }
}

/// Read the options from the argument words (the program name already
/// removed).  `None` when no input path was given.
pub fn parse_cli_args(args: &Vec<String>) -> (r: Option<CliOptions>)
    ensures
        ({
            let scanned = spec_scan(args.deep_view(), 0, None, "localhost:50051"@);
            match r {
                Some(o) => scanned.0 == Some(o.input@) && o.orchestrator@ == scanned.1,
                None => scanned.0 is None,
            }
        }),
{
    let ghost all = args.deep_view();
    let n: usize = args.len();
    let mut i: usize = 0;
    let mut input: Option<String> = None;
    let mut orch: String = "localhost:50051".to_owned();
    while i < n
        invariant
            n == all.len(),
            all == args.deep_view(),
            i <= n,
            spec_scan(
                all,
                i as int,
                match input {
                    Some(s) => Some(s@),
                    None => None,
                },
                orch@,
            ) == spec_scan(all, 0, None, "localhost:50051"@),
        decreases n - i,
    {
        proof {
            assert(all[i as int] == args@[i as int]@);
        }
        if (crate::text::str_eq(args[i].as_str(), "--orchestrator") || crate::text::str_eq(
            args[i].as_str(),
            "-o",
        )) && i + 1 < n {
            orch = args[i + 1].clone();
            proof {
                assert(all[i as int + 1] == args@[i as int + 1]@);
            }
            i = i + 2;
        } else if (crate::text::str_eq(args[i].as_str(), "--input") || crate::text::str_eq(
            args[i].as_str(),
            "-i",
        )) && i + 1 < n {
            if input.is_none() {
                input = Some(args[i + 1].clone());
            }
            proof {
                assert(all[i as int + 1] == args@[i as int + 1]@);
            }
            i = i + 2;
        } else if args[i].as_str().unicode_len() > 0 && args[i].as_str().get_char(0) == '-' {
            i = i + 1;
        } else if input.is_none() {
            input = Some(args[i].clone());
            i = i + 1;
        } else {
            i = i + 1;
        }
    }
    match input {
        Some(input) => Some(CliOptions { input, orchestrator: orch }),
        None => None,
    }
}

} // verus!
