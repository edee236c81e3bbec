//! The headless command line: what the arguments ask for, and the texts that a
//! run, a conversion, a probe or a script check reports.

use vstd::prelude::*;
use vstd::string::*;
use crate::text;

verus! {

/// What the command line asks for.
#[derive(Debug)]
pub enum Cli {
    /// No headless flags: hand the session to the workspace window.
    Gui,
    /// Print this text and exit successfully.
    Help(String),
    /// Run the replay or the simulation headless.
    Run(CliOpts),
    /// Compile node scripts and report; exit non-zero on any failure.
    CheckScripts(ScriptCheck),
    /// Transcode a log to ASC: `--convert <in> <out>`.
    Convert(String, String),
    /// List the Kvaser channels canlib sees.
    KvaserProbe,
    /// List the Vector channels with their bus types, and probe FlexRay
    /// reception. `fibex` names a cluster description to validate and configure
    /// the channel from.
    VectorProbe { fibex: Option<String> },
}

#[derive(Debug)]
pub struct CliOpts {
    /// The log to replay, when `--replay` was given.
    pub replay: Option<String>,
    /// The project to simulate, when `--project` was given.
    pub project: Option<String>,
    /// Profile name under the project's `profiles/` directory, when
    /// `--profile` was given: role overrides layered on the project.
    pub profile: Option<String>,
    /// The bit pattern of the playback rate.
    pub speed: u64,
    /// The bit pattern of the wall-clock seconds to run before stopping; the
    /// whole log when None (replay only -- a simulation must be bounded).
    pub duration_s: Option<u64>,
    /// Write the message-statistics CSV here when the run ends.
    pub stats_csv: Option<String>,
}

/// Inputs of the `--check-script` gate: the scripts to check, optionally the
/// DBCs (repeatable, merged in order) to run the database-backed assembly checks
/// against, and optionally the DBC node name the scripts act as.
#[derive(Debug)]
pub struct ScriptCheck {
    pub scripts: Vec<String>,
    pub dbcs: Vec<String>,
    pub node: Option<String>,
}

/// The text of `--help`.
pub open spec fn usage_text() -> Seq<char> {
    "roxy-can -- CAN bus analysis

  roxy-can                       open the workspace window (default)
  roxy-can --replay <log> ...    replay a CAN log without any window
  roxy-can --project <p> ...     simulate a saved project without any window
  roxy-can --check-script <f>    compile node scripts, no window needed
                                 (repeat the flag for more files; non-zero
                                 exit when any script fails). With
                                 --dbc/--node the DBC-backed assembly
                                 checks (signal refs, send set vs the
                                 node's declarations, reverse check,
                                 set_sig ranges) run here too
  roxy-can --convert <in> <out>  transcode a log (.asc/.blf) to ASC
  roxy-can --kvaser-probe        list the Kvaser channels canlib sees
  roxy-can --vector-probe        list Vector channels with bus types; opens
                                 a FlexRay channel rx-only when present.
                                 With --fibex, validates the cluster
                                 description, configures the channel from
                                 it and dumps the first event's raw bytes

run options
  --replay <path>    log to replay (.asc or .blf)
  --project <path>   project (.rxproj) to simulate: generators and script
                     nodes run on the virtual bus (needs --duration)
  --profile <name>   overlay profiles/<name>.toml from the project
                     directory onto the project's node roles (needs
                     --project); every unknown bus/node/role is an error
  --speed <n>        playback rate, 1.0 = real time (replay only, default 1.0)
  --duration <s>     stop after this many wall-clock seconds
                     (replay default: run to the end of the log;
                      project: required, a simulation has no end)
  --stats <path>     write the message-statistics CSV when the run ends
  --dbc <path>       DBC for --check-script's assembly checks (repeatable,
                     merged in order, first library wins on clashes)
  --node <name>      the DBC node name the checked scripts act as; turns
                     on the send-set and reverse implementation checks
  --fibex <path>     FIBEX/ARXML cluster description for --vector-probe:
                     parsed, reported, then applied to the RX-only open
  -h, --help         this text"@
}

pub fn usage() -> (r: &'static str)
    ensures
        r@ == usage_text(),
{
    "roxy-can -- CAN bus analysis

  roxy-can                       open the workspace window (default)
  roxy-can --replay <log> ...    replay a CAN log without any window
  roxy-can --project <p> ...     simulate a saved project without any window
  roxy-can --check-script <f>    compile node scripts, no window needed
                                 (repeat the flag for more files; non-zero
                                 exit when any script fails). With
                                 --dbc/--node the DBC-backed assembly
                                 checks (signal refs, send set vs the
                                 node's declarations, reverse check,
                                 set_sig ranges) run here too
  roxy-can --convert <in> <out>  transcode a log (.asc/.blf) to ASC
  roxy-can --kvaser-probe        list the Kvaser channels canlib sees
  roxy-can --vector-probe        list Vector channels with bus types; opens
                                 a FlexRay channel rx-only when present.
                                 With --fibex, validates the cluster
                                 description, configures the channel from
                                 it and dumps the first event's raw bytes

run options
  --replay <path>    log to replay (.asc or .blf)
  --project <path>   project (.rxproj) to simulate: generators and script
                     nodes run on the virtual bus (needs --duration)
  --profile <name>   overlay profiles/<name>.toml from the project
                     directory onto the project's node roles (needs
                     --project); every unknown bus/node/role is an error
  --speed <n>        playback rate, 1.0 = real time (replay only, default 1.0)
  --duration <s>     stop after this many wall-clock seconds
                     (replay default: run to the end of the log;
                      project: required, a simulation has no end)
  --stats <path>     write the message-statistics CSV when the run ends
  --dbc <path>       DBC for --check-script's assembly checks (repeatable,
                     merged in order, first library wins on clashes)
  --node <name>      the DBC node name the checked scripts act as; turns
                     on the send-set and reverse implementation checks
  --fibex <path>     FIBEX/ARXML cluster description for --vector-probe:
                     parsed, reported, then applied to the RX-only open
  -h, --help         this text"
}

/// What the flags say so far.
pub struct Settings {
    pub replay: Option<Seq<char>>,
    pub project: Option<Seq<char>>,
    pub profile: Option<Seq<char>>,
    pub convert: Option<(Seq<char>, Seq<char>)>,
    pub kvaser_probe: bool,
    pub vector_probe: bool,
    pub fibex: Option<Seq<char>>,
    pub speed: u64,
    pub duration: Option<u64>,
    pub stats: Option<Seq<char>>,
    pub scripts: Seq<Seq<char>>,
    pub dbcs: Seq<Seq<char>>,
    pub node: Option<Seq<char>>,
}

/// The bit pattern of 1.0.
pub const ONE: u64 = 0x3ff0_0000_0000_0000;

/// Nothing said: real-time speed and no limit.
pub open spec fn no_settings() -> Settings {
    Settings {
        replay: None,
        project: None,
        profile: None,
        convert: None,
        kvaser_probe: false,
        vector_probe: false,
        fibex: None,
        speed: ONE,
        duration: None,
        stats: None,
        scripts: Seq::empty(),
        dbcs: Seq::empty(),
        node: None,
    }
}

/// The value at `i`: an argument that is there and not empty.
pub open spec fn value_at(args: Seq<Seq<char>>, i: int, name: Seq<char>) -> Result<
    Seq<char>,
    Seq<char>,
> {
    if 0 <= i < args.len() && args[i].len() > 0 {
        Ok(args[i])
    } else {
        Err(name + " needs a value"@)
    }
}

/// The bit pattern is that of a finite number above zero.
pub open spec fn is_positive(bits: u64) -> bool {
    0 < bits < 0x7ff0_0000_0000_0000
}

/// The flag at `i` with its values, and the index behind them. `numbers` holds
/// the bit pattern of each argument that reads as a number.
pub open spec fn read_flag(
    s: Settings,
    args: Seq<Seq<char>>,
    numbers: Seq<Option<u64>>,
    i: int,
) -> Result<(Settings, int), Seq<char>> {
    let flag = args[i];
    if flag == "--replay"@ {
        match value_at(args, i + 1, "--replay"@) {
            Ok(v) => Ok((Settings { replay: Some(v), ..s }, i + 2)),
            Err(e) => Err(e),
        }
    } else if flag == "--project"@ {
        match value_at(args, i + 1, "--project"@) {
            Ok(v) => Ok((Settings { project: Some(v), ..s }, i + 2)),
            Err(e) => Err(e),
        }
    } else if flag == "--profile"@ {
        match value_at(args, i + 1, "--profile"@) {
            Ok(v) => Ok((Settings { profile: Some(v), ..s }, i + 2)),
            Err(e) => Err(e),
        }
    } else if flag == "--fibex"@ {
        match value_at(args, i + 1, "--fibex"@) {
            Ok(v) => Ok((Settings { fibex: Some(v), ..s }, i + 2)),
            Err(e) => Err(e),
        }
    } else if flag == "--stats"@ {
        match value_at(args, i + 1, "--stats"@) {
            Ok(v) => Ok((Settings { stats: Some(v), ..s }, i + 2)),
            Err(e) => Err(e),
        }
    } else if flag == "--node"@ {
        match value_at(args, i + 1, "--node"@) {
            Ok(v) => Ok((Settings { node: Some(v), ..s }, i + 2)),
            Err(e) => Err(e),
        }
    } else if flag == "--check-script"@ {
        match value_at(args, i + 1, "--check-script"@) {
            Ok(v) => Ok((Settings { scripts: s.scripts.push(v), ..s }, i + 2)),
            Err(e) => Err(e),
        }
    } else if flag == "--dbc"@ {
        match value_at(args, i + 1, "--dbc"@) {
            Ok(v) => Ok((Settings { dbcs: s.dbcs.push(v), ..s }, i + 2)),
            Err(e) => Err(e),
        }
    } else if flag == "--convert"@ {
        match value_at(args, i + 1, "--convert input"@) {
            Ok(input) => match value_at(args, i + 2, "--convert output"@) {
                Ok(output) => Ok((Settings { convert: Some((input, output)), ..s }, i + 3)),
                Err(e) => Err(e),
            },
            Err(e) => Err(e),
        }
    } else if flag == "--kvaser-probe"@ {
        Ok((Settings { kvaser_probe: true, ..s }, i + 1))
    } else if flag == "--vector-probe"@ {
        Ok((Settings { vector_probe: true, ..s }, i + 1))
    } else if flag == "--speed"@ {
        match value_at(args, i + 1, "--speed"@) {
            Ok(v) => match numbers[i + 1] {
                Some(bits) => if is_positive(bits) {
                    Ok((Settings { speed: bits, ..s }, i + 2))
                } else {
                    Err("--speed must be a positive number"@)
                },
                None => Err("--speed wants a number, got `"@ + v + "`"@),
            },
            Err(e) => Err(e),
        }
    } else if flag == "--duration"@ {
        match value_at(args, i + 1, "--duration"@) {
            Ok(v) => match numbers[i + 1] {
                Some(bits) => if is_positive(bits) {
                    Ok((Settings { duration: Some(bits), ..s }, i + 2))
                } else {
                    Err("--duration must be a positive number of seconds"@)
                },
                None => Err("--duration wants a number of seconds, got `"@ + v + "`"@),
            },
            Err(e) => Err(e),
        }
    } else {
        Err("unknown flag `"@ + flag + "`"@)
    }
}

/// The flags from `i` on: each is read in turn, and the first error ends it.
pub open spec fn read_flags(
    s: Settings,
    args: Seq<Seq<char>>,
    numbers: Seq<Option<u64>>,
    i: int,
) -> Result<Settings, Seq<char>>
    decreases args.len() - i,
{
    if i < 0 || i >= args.len() {
        Ok(s)
    } else {
        match read_flag(s, args, numbers, i) {
            Ok((next, k)) => if k > i {
                read_flags(next, args, numbers, k)
            } else {
                Ok(s)
            },
            Err(e) => Err(e),
        }
    }
}

/// An optional text as its characters.
pub open spec fn view_of(t: Option<String>) -> Option<Seq<char>> {
    match t {
        Some(s) => Some(s@),
        None => None,
    }
}

/// The run flags that stand alone exclude.
pub open spec fn has_run_flags(s: Settings) -> bool {
    s.replay is Some || s.project is Some || s.profile is Some
}

/// Why the settings are refused; `None` where they are not.
pub open spec fn refusal(s: Settings) -> Option<Seq<char>> {
    if s.scripts.len() > 0 {
        if s.replay is Some || s.project is Some {
            Some("`--check-script` runs headless on its own; drop `--replay`/`--project`"@)
        } else {
            None
        }
    } else if s.dbcs.len() > 0 || s.node is Some {
        Some("`--dbc`/`--node` belong to `--check-script`"@)
    } else if s.convert is Some {
        if has_run_flags(s) {
            Some("`--convert` transcodes a log on its own; drop the other run flags"@)
        } else if !text::ends_ignoring_case((s.convert->0).1, ".asc"@) {
            Some("`--convert` writes ASC; the output must end in .asc"@)
        } else {
            None
        }
    } else if s.kvaser_probe {
        if has_run_flags(s) {
            Some("`--kvaser-probe` runs on its own; drop the other run flags"@)
        } else {
            None
        }
    } else if s.vector_probe {
        if has_run_flags(s) {
            Some("`--vector-probe` runs on its own; drop the other run flags"@)
        } else {
            None
        }
    } else if s.fibex is Some {
        Some("`--fibex` belongs to `--vector-probe`; got `"@ + s.fibex->0 + "` alone"@)
    } else if s.replay is Some && s.project is Some {
        Some("`--replay` and `--project` are mutually exclusive"@)
    } else if s.profile is Some && s.project is None {
        Some("`--profile` overlays a `--project`; give both"@)
    } else if s.project is Some && s.duration is None {
        Some("`--project` simulates until told to stop; `--duration` is required"@)
    } else if s.replay is None && s.project is None {
        Some("`--replay <log>` or `--project <project>` is required"@)
    } else {
        None
    }
}

/// `cli` is what settings that are not refused ask for.
pub open spec fn asks_for(cli: Cli, s: Settings) -> bool {
    if s.scripts.len() > 0 {
        cli matches Cli::CheckScripts(c) && text::views(c.scripts@) == s.scripts && text::views(
            c.dbcs@,
        ) == s.dbcs && view_of(c.node) == s.node
    } else if s.convert is Some {
        cli matches Cli::Convert(input, output) && input@ == (s.convert->0).0 && output@
            == (s.convert->0).1
    } else if s.kvaser_probe {
        cli is KvaserProbe
    } else if s.vector_probe {
        cli matches Cli::VectorProbe { fibex } && view_of(fibex) == s.fibex
    } else {
        cli matches Cli::Run(o) && view_of(o.replay) == s.replay && view_of(o.project) == s.project
            && view_of(o.profile) == s.profile && o.speed == s.speed && o.duration_s == s.duration
            && view_of(o.stats_csv) == s.stats
    }
}

/// A help flag stands somewhere on the line.
pub open spec fn asks_help(args: Seq<Seq<char>>) -> bool {
    exists|k: int|
        0 <= k < args.len() && (#[trigger] args[k] == "-h"@ || args[k] == "--help"@)
}

/// What the arguments ask for. No argument opens the window, and help wins over
/// the rest of the line.
pub open spec fn is_parsed(
    r: Result<Cli, String>,
    args: Seq<Seq<char>>,
    numbers: Seq<Option<u64>>,
) -> bool {
    if args.len() == 0 {
        r matches Ok(cli) && cli is Gui
    } else if asks_help(args) {
        r matches Ok(cli) && (cli matches Cli::Help(t) && t@ == usage_text())
    } else {
        match read_flags(no_settings(), args, numbers, 0) {
            Err(e) => r matches Err(message) && message@ == e,
            Ok(s) => match refusal(s) {
                Some(e) => r matches Err(message) && message@ == e,
                None => r matches Ok(cli) && asks_for(cli, s),
            },
        }
    }
}

/// What the flags say so far.
struct Flags {
    replay: Option<String>,
    project: Option<String>,
    profile: Option<String>,
    convert: Option<(String, String)>,
    kvaser_probe: bool,
    vector_probe: bool,
    fibex: Option<String>,
    speed: u64,
    duration: Option<u64>,
    stats: Option<String>,
    scripts: Vec<String>,
    dbcs: Vec<String>,
    node: Option<String>,
}

impl Flags {
    spec fn settings(self) -> Settings {
        Settings {
            replay: view_of(self.replay),
            project: view_of(self.project),
            profile: view_of(self.profile),
            convert: match self.convert {
                Some(p) => Some((p.0@, p.1@)),
                None => None,
            },
            kvaser_probe: self.kvaser_probe,
            vector_probe: self.vector_probe,
            fibex: view_of(self.fibex),
            speed: self.speed,
            duration: self.duration,
            stats: view_of(self.stats),
            scripts: text::views(self.scripts@),
            dbcs: text::views(self.dbcs@),
            node: view_of(self.node),
        }
    }
}

/// Reads the value at `i`, refusing an empty or missing one.
fn value(args: &[String], i: usize, name: &str) -> (r: Result<String, String>)
    ensures
        match value_at(text::views(args@), i as int, name@) {
            Ok(v) => r matches Ok(s) && s@ == v && i < args@.len(),
            Err(e) => r matches Err(m) && m@ == e,
        },
{
    if i < args.len() {
        assert(text::views(args@)[i as int] == args@[i as int]@);
        if !args[i].as_str().is_empty() {
            return Ok(args[i].clone());
        }
    }
    let mut message: String = name.to_owned();
    message.append(" needs a value");
    Err(message)
}

fn quoted(head: &str, what: &str, tail: &str) -> (r: String)
    ensures
        r@ == head@ + what@ + tail@,
{
    let mut s: String = head.to_owned();
    s.append(what);
    s.append(tail);
    s
}

fn positive(bits: u64) -> (r: bool)
    ensures
        r == is_positive(bits),
{
    0 < bits && bits < 0x7ff0_0000_0000_0000
}

/// Reads the flag at `i`; gives the index behind it.
fn step(flags: &mut Flags, args: &[String], numbers: &[Option<u64>], i: usize) -> (r: Result<
    usize,
    String,
>)
    requires
        i < args@.len(),
        args@.len() + 3 <= usize::MAX,
        numbers@.len() == args@.len(),
    ensures
        match read_flag(old(flags).settings(), text::views(args@), numbers@, i as int) {
            Ok((s, k)) => r matches Ok(n) && n == k && n > i && final(flags).settings() == s,
            Err(e) => r matches Err(m) && m@ == e,
        },
{
    let ghost before = flags.settings();
    let ghost line = text::views(args@);
    assert(line[i as int] == args@[i as int]@);
    let flag: &str = args[i].as_str();
    if text::same_text(flag, "--replay") {
        return match value(args, i + 1, "--replay") {
            Ok(v) => {
                flags.replay = Some(v);
                Ok(i + 2)
            },
            Err(e) => Err(e),
        };
    }
    if text::same_text(flag, "--project") {
        return match value(args, i + 1, "--project") {
            Ok(v) => {
                flags.project = Some(v);
                Ok(i + 2)
            },
            Err(e) => Err(e),
        };
    }
    if text::same_text(flag, "--profile") {
        return match value(args, i + 1, "--profile") {
            Ok(v) => {
                flags.profile = Some(v);
                Ok(i + 2)
            },
            Err(e) => Err(e),
        };
    }
    if text::same_text(flag, "--fibex") {
        return match value(args, i + 1, "--fibex") {
            Ok(v) => {
                flags.fibex = Some(v);
                Ok(i + 2)
            },
            Err(e) => Err(e),
        };
    }
    if text::same_text(flag, "--stats") {
        return match value(args, i + 1, "--stats") {
            Ok(v) => {
                flags.stats = Some(v);
                Ok(i + 2)
            },
            Err(e) => Err(e),
        };
    }
    if text::same_text(flag, "--node") {
        return match value(args, i + 1, "--node") {
            Ok(v) => {
                flags.node = Some(v);
                Ok(i + 2)
            },
            Err(e) => Err(e),
        };
    }
    if text::same_text(flag, "--check-script") {
        return match value(args, i + 1, "--check-script") {
            Ok(v) => {
                let ghost list = flags.scripts@;
                flags.scripts.push(v);
                assert(text::views(flags.scripts@) =~= text::views(list).push(v@));
                Ok(i + 2)
            },
            Err(e) => Err(e),
        };
    }
    if text::same_text(flag, "--dbc") {
        return match value(args, i + 1, "--dbc") {
            Ok(v) => {
                let ghost list = flags.dbcs@;
                flags.dbcs.push(v);
                assert(text::views(flags.dbcs@) =~= text::views(list).push(v@));
                Ok(i + 2)
            },
            Err(e) => Err(e),
        };
    }
    if text::same_text(flag, "--convert") {
        return match value(args, i + 1, "--convert input") {
            Ok(input) => match value(args, i + 2, "--convert output") {
                Ok(output) => {
                    flags.convert = Some((input, output));
                    Ok(i + 3)
                },
                Err(e) => Err(e),
            },
            Err(e) => Err(e),
        };
    }
    if text::same_text(flag, "--kvaser-probe") {
        flags.kvaser_probe = true;
        return Ok(i + 1);
    }
    if text::same_text(flag, "--vector-probe") {
        flags.vector_probe = true;
        return Ok(i + 1);
    }
    if text::same_text(flag, "--speed") {
        return match value(args, i + 1, "--speed") {
            Ok(v) => match numbers[i + 1] {
                Some(bits) => if positive(bits) {
                    flags.speed = bits;
                    Ok(i + 2)
                } else {
                    Err("--speed must be a positive number".to_owned())
                },
                None => Err(quoted("--speed wants a number, got `", v.as_str(), "`")),
            },
            Err(e) => Err(e),
        };
    }
    if text::same_text(flag, "--duration") {
        return match value(args, i + 1, "--duration") {
            Ok(v) => match numbers[i + 1] {
                Some(bits) => if positive(bits) {
                    flags.duration = Some(bits);
                    Ok(i + 2)
                } else {
                    Err("--duration must be a positive number of seconds".to_owned())
                },
                None => Err(
                    quoted("--duration wants a number of seconds, got `", v.as_str(), "`"),
                ),
            },
            Err(e) => Err(e),
        };
    }
    Err(quoted("unknown flag `", flag, "`"))
}

/// Holds the settings against each other and says what they ask for.
fn decide(flags: Flags) -> (r: Result<Cli, String>)
    ensures
        match refusal(flags.settings()) {
            Some(e) => r matches Err(m) && m@ == e,
            None => r matches Ok(cli) && asks_for(cli, flags.settings()),
        },
{
    let runs: bool = flags.replay.is_some() || flags.project.is_some() || flags.profile.is_some();
    if flags.scripts.len() > 0 {
        if flags.replay.is_some() || flags.project.is_some() {
            return Err(
                "`--check-script` runs headless on its own; drop `--replay`/`--project`".to_owned(),
            );
        }
        return Ok(
            Cli::CheckScripts(
                ScriptCheck { scripts: flags.scripts, dbcs: flags.dbcs, node: flags.node },
            ),
        );
    }
    if flags.dbcs.len() > 0 || flags.node.is_some() {
        return Err("`--dbc`/`--node` belong to `--check-script`".to_owned());
    }
    if let Some((input, output)) = flags.convert {
        if runs {
            return Err(
                "`--convert` transcodes a log on its own; drop the other run flags".to_owned(),
            );
        }
        if !text::ends_with_ignoring_case(output.as_str(), ".asc") {
            return Err("`--convert` writes ASC; the output must end in .asc".to_owned());
        }
        return Ok(Cli::Convert(input, output));
    }
    if flags.kvaser_probe {
        if runs {
            return Err(
                "`--kvaser-probe` runs on its own; drop the other run flags".to_owned(),
            );
        }
        return Ok(Cli::KvaserProbe);
    }
    if flags.vector_probe {
        if runs {
            return Err(
                "`--vector-probe` runs on its own; drop the other run flags".to_owned(),
            );
        }
        return Ok(Cli::VectorProbe { fibex: flags.fibex });
    }
    if let Some(path) = flags.fibex {
        return Err(
            quoted("`--fibex` belongs to `--vector-probe`; got `", path.as_str(), "` alone"),
        );
    }
    if flags.replay.is_some() && flags.project.is_some() {
        return Err("`--replay` and `--project` are mutually exclusive".to_owned());
    }
    if flags.profile.is_some() && flags.project.is_none() {
        return Err("`--profile` overlays a `--project`; give both".to_owned());
    }
    if flags.project.is_some() && flags.duration.is_none() {
        return Err(
            "`--project` simulates until told to stop; `--duration` is required".to_owned(),
        );
    }
    if flags.replay.is_none() && flags.project.is_none() {
        return Err("`--replay <log>` or `--project <project>` is required".to_owned());
    }
    Ok(
        Cli::Run(
            CliOpts {
                replay: flags.replay,
                project: flags.project,
                profile: flags.profile,
                speed: flags.speed,
                duration_s: flags.duration,
                stats_csv: flags.stats,
            },
        ),
    )
}

/// What the arguments ask for. `numbers` holds, for each argument that reads as a
/// number, the bit pattern of that number.
pub fn parse_args(args: &[String], numbers: &[Option<u64>]) -> (r: Result<Cli, String>)
    requires
        numbers@.len() == args@.len(),
        args@.len() + 3 <= usize::MAX,
    ensures
        is_parsed(r, text::views(args@), numbers@),
{
    let ghost line = text::views(args@);
    if args.len() == 0 {
        return Ok(Cli::Gui);
    }
    for k in 0..args.len()
        invariant
            line == text::views(args@),
            forall|j: int| 0 <= j < k ==> line[j] != "-h"@ && line[j] != "--help"@,
            args@.len() > 0,
    {
        assert(line[k as int] == args@[k as int]@);
        if text::same_text(args[k].as_str(), "-h") || text::same_text(args[k].as_str(), "--help") {
            assert(line[k as int] == "-h"@ || line[k as int] == "--help"@);
            return Ok(Cli::Help(usage().to_owned()));
        }
    }
    let mut flags: Flags = Flags {
        replay: None,
        project: None,
        profile: None,
        convert: None,
        kvaser_probe: false,
        vector_probe: false,
        fibex: None,
        speed: ONE,
        duration: None,
        stats: None,
        scripts: Vec::new(),
        dbcs: Vec::new(),
        node: None,
    };
    proof {
        let s = flags.settings();
        assert(s.scripts =~= Seq::<Seq<char>>::empty());
        assert(s.dbcs =~= Seq::<Seq<char>>::empty());
        assert(s == no_settings());
    }
    let mut i: usize = 0;
    while i < args.len()
        invariant
            line == text::views(args@),
            args@.len() > 0,
            !asks_help(line),
            numbers@.len() == args@.len(),
            args@.len() + 3 <= usize::MAX,
            read_flags(no_settings(), line, numbers@, 0) == read_flags(
                flags.settings(),
                line,
                numbers@,
                i as int,
            ),
        decreases args@.len() + 3 - i,
    {
        match step(&mut flags, args, numbers, i) {
            Ok(next) => {
                i = next;
            },
            Err(e) => {
                return Err(e);
            },
        }
    }
    decide(flags)
}

} // verus!
