//! What the flags of the command line ask for.

use vstd::prelude::*;
use crate::cli;
use crate::cli::{Cli, Settings};

verus! {

/// The flags are all different.
proof fn lemma_flags()
    ensures
        "--replay"@.len() == 8,
        "--project"@.len() == 9,
        "--profile"@.len() == 9,
        "--convert"@.len() == 9,
        "--fibex"@.len() == 7,
        "--stats"@.len() == 7,
        "--speed"@.len() == 7,
        "--node"@.len() == 6,
        "--check-script"@.len() == 14,
        "--kvaser-probe"@.len() == 14,
        "--vector-probe"@.len() == 14,
        "--dbc"@.len() == 5,
        "--duration"@.len() == 10,
        "--project"@ != "--profile"@,
        "--project"@ != "--convert"@,
        "--profile"@ != "--convert"@,
        "--fibex"@ != "--stats"@,
        "--fibex"@ != "--speed"@,
        "--stats"@ != "--speed"@,
        "--check-script"@ != "--kvaser-probe"@,
        "--check-script"@ != "--vector-probe"@,
        "--kvaser-probe"@ != "--vector-probe"@,
{
    reveal_strlit("--replay");
    reveal_strlit("--project");
    reveal_strlit("--profile");
    reveal_strlit("--convert");
    reveal_strlit("--fibex");
    reveal_strlit("--stats");
    reveal_strlit("--speed");
    reveal_strlit("--node");
    reveal_strlit("--check-script");
    reveal_strlit("--kvaser-probe");
    reveal_strlit("--vector-probe");
    reveal_strlit("--dbc");
    reveal_strlit("--duration");
    assert("--project"@[5] != "--profile"@[5]);
    assert("--project"@[2] != "--convert"@[2]);
    assert("--profile"@[2] != "--convert"@[2]);
    assert("--fibex"@[2] != "--stats"@[2]);
    assert("--fibex"@[2] != "--speed"@[2]);
    assert("--stats"@[3] != "--speed"@[3]);
    assert("--check-script"@[2] != "--kvaser-probe"@[2]);
    assert("--check-script"@[2] != "--vector-probe"@[2]);
    assert("--kvaser-probe"@[2] != "--vector-probe"@[2]);
}

/// A flag with a value sets that setting to the word behind it and nothing else, and the
/// line goes on behind the value. A script or a database is added to those that were given.
/// Without a word behind it the flag is refused.
pub proof fn law_flags_set_what_they_name(
    s: Settings,
    args: Seq<Seq<char>>,
    numbers: Seq<Option<u64>>,
    i: int,
)
    requires
        0 <= i < args.len(),
        numbers.len() == args.len(),
    ensures
        i + 1 < args.len() && args[i + 1].len() > 0 ==> {
            let v = args[i + 1];
            &&& args[i] == "--replay"@ ==> cli::read_flag(s, args, numbers, i) == Ok::<
                (Settings, int),
                Seq<char>,
            >((Settings { replay: Some(v), ..s }, i + 2))
            &&& args[i] == "--project"@ ==> cli::read_flag(s, args, numbers, i) == Ok::<
                (Settings, int),
                Seq<char>,
            >((Settings { project: Some(v), ..s }, i + 2))
            &&& args[i] == "--profile"@ ==> cli::read_flag(s, args, numbers, i) == Ok::<
                (Settings, int),
                Seq<char>,
            >((Settings { profile: Some(v), ..s }, i + 2))
            &&& args[i] == "--fibex"@ ==> cli::read_flag(s, args, numbers, i) == Ok::<
                (Settings, int),
                Seq<char>,
            >((Settings { fibex: Some(v), ..s }, i + 2))
            &&& args[i] == "--stats"@ ==> cli::read_flag(s, args, numbers, i) == Ok::<
                (Settings, int),
                Seq<char>,
            >((Settings { stats: Some(v), ..s }, i + 2))
            &&& args[i] == "--node"@ ==> cli::read_flag(s, args, numbers, i) == Ok::<
                (Settings, int),
                Seq<char>,
            >((Settings { node: Some(v), ..s }, i + 2))
            &&& args[i] == "--check-script"@ ==> cli::read_flag(s, args, numbers, i) == Ok::<
                (Settings, int),
                Seq<char>,
            >((Settings { scripts: s.scripts.push(v), ..s }, i + 2))
            &&& args[i] == "--dbc"@ ==> cli::read_flag(s, args, numbers, i) == Ok::<
                (Settings, int),
                Seq<char>,
            >((Settings { dbcs: s.dbcs.push(v), ..s }, i + 2))
        },
        args[i] == "--kvaser-probe"@ ==> cli::read_flag(s, args, numbers, i) == Ok::<
            (Settings, int),
            Seq<char>,
        >((Settings { kvaser_probe: true, ..s }, i + 1)),
        args[i] == "--vector-probe"@ ==> cli::read_flag(s, args, numbers, i) == Ok::<
            (Settings, int),
            Seq<char>,
        >((Settings { vector_probe: true, ..s }, i + 1)),
        i + 1 >= args.len() && args[i] != "--kvaser-probe"@ && args[i] != "--vector-probe"@
            ==> cli::read_flag(s, args, numbers, i) is Err,
{
    lemma_flags();
}

/// Speed and duration take a number above zero, and only such a one: it is the bit pattern
/// of a finite double that is no zero and has no sign.
pub proof fn law_speed_and_duration_are_positive(
    s: Settings,
    args: Seq<Seq<char>>,
    numbers: Seq<Option<u64>>,
    i: int,
)
    requires
        0 <= i < args.len(),
        i + 1 < args.len(),
        args[i + 1].len() > 0,
        numbers.len() == args.len(),
    ensures
        args[i] == "--speed"@ ==> match numbers[i + 1] {
            Some(bits) => if 0 < bits < 0x7ff0_0000_0000_0000 {
                cli::read_flag(s, args, numbers, i) == Ok::<(Settings, int), Seq<char>>(
                    (Settings { speed: bits, ..s }, i + 2),
                )
            } else {
                cli::read_flag(s, args, numbers, i) is Err
            },
            None => cli::read_flag(s, args, numbers, i) is Err,
        },
        args[i] == "--duration"@ ==> match numbers[i + 1] {
            Some(bits) => if 0 < bits < 0x7ff0_0000_0000_0000 {
                cli::read_flag(s, args, numbers, i) == Ok::<(Settings, int), Seq<char>>(
                    (Settings { duration: Some(bits), ..s }, i + 2),
                )
            } else {
                cli::read_flag(s, args, numbers, i) is Err
            },
            None => cli::read_flag(s, args, numbers, i) is Err,
        },
{
    lemma_flags();
}

/// What is asked for together must go together: a run needs a log or a project and not both,
/// a project a duration, a profile a project; scripts are checked and logs converted alone.
pub proof fn law_settings_that_disagree_are_refused(s: Settings)
    ensures
        s.scripts.len() == 0 && s.convert is None && !s.kvaser_probe && !s.vector_probe ==> {
            &&& cli::refusal(s) is None ==> s.replay is Some != s.project is Some
            &&& cli::refusal(s) is None && s.project is Some ==> s.duration is Some
            &&& cli::refusal(s) is None && s.profile is Some ==> s.project is Some
            &&& cli::refusal(s) is None ==> s.fibex is None && s.node is None && s.dbcs.len() == 0
            &&& s.replay is Some && s.project is None && s.profile is None && s.fibex is None
                && s.node is None && s.dbcs.len() == 0 ==> cli::refusal(s) is None
            &&& s.project is Some && s.duration is Some && s.replay is None && s.fibex is None
                && s.node is None && s.dbcs.len() == 0 ==> cli::refusal(s) is None
        },
        s.scripts.len() > 0 ==> (cli::refusal(s) is None) == (s.replay is None && s.project
            is None),
        s.convert is Some && s.scripts.len() == 0 && cli::refusal(s) is None ==> s.replay is None
            && s.project is None && s.profile is None,
        (s.kvaser_probe || s.vector_probe) && s.scripts.len() == 0 && cli::refusal(s) is None
            ==> s.replay is None && s.project is None && s.profile is None,
{
}

/// A line that asks for a replay alone runs that log at the single speed without a limit; no
/// line opens the window; and help is given wherever it is asked for.
pub proof fn law_a_lone_replay_runs(
    r: Result<Cli, String>,
    args: Seq<Seq<char>>,
    numbers: Seq<Option<u64>>,
)
    requires
        cli::is_parsed(r, args, numbers),
        numbers.len() == args.len(),
    ensures
        args.len() == 0 ==> (r matches Ok(c) && c is Gui),
        args.contains("--help"@) || args.contains("-h"@) ==> (r matches Ok(c) && c is Help),
        args.len() == 2 && args[0] == "--replay"@ && args[1].len() > 0 && args[1] != "-h"@
            && args[1] != "--help"@ ==> (r matches Ok(c) && (c matches Cli::Run(o) && cli::view_of(
            o.replay,
        ) == Some(args[1]) && o.project is None && o.speed == 0x3FF0_0000_0000_0000
            && o.duration_s is None)),
{
    lemma_flags();
    reveal_strlit("-h");
    reveal_strlit("--help");
    if args.contains("--help"@) {
        let k = choose|k: int| 0 <= k < args.len() && args[k] == "--help"@;
        assert(cli::asks_help(args)) by {
            assert(args[k] == "--help"@);
        }
    }
    if args.contains("-h"@) {
        let k = choose|k: int| 0 <= k < args.len() && args[k] == "-h"@;
        assert(cli::asks_help(args)) by {
            assert(args[k] == "-h"@);
        }
    }
    if args.len() == 2 && args[0] == "--replay"@ && args[1].len() > 0 && args[1] != "-h"@ && args[1]
        != "--help"@ {
        assert(!cli::asks_help(args));
        law_flags_set_what_they_name(cli::no_settings(), args, numbers, 0);
        let s = Settings { replay: Some(args[1]), ..cli::no_settings() };
        reveal_with_fuel(cli::read_flags, 3);
        assert(cli::read_flags(s, args, numbers, 2) == Ok::<Settings, Seq<char>>(s));
        assert(cli::read_flags(cli::no_settings(), args, numbers, 0) == Ok::<Settings, Seq<char>>(
            s,
        ));
        law_settings_that_disagree_are_refused(s);
    }
}

} // verus!
