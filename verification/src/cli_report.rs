//! The texts that headless runs report: probes, conversions, script checks and
//! the end of a replay or simulation, and when such a run is over.

use vstd::prelude::*;
use vstd::string::*;
use crate::text;

verus! {

/// A hardware channel as a driver lists it.
#[derive(Debug)]
pub struct ListedChannel {
    pub index: i32,
    pub name: String,
}

/// The lines of the first `n` channels.
pub open spec fn channel_lines(channels: Seq<ListedChannel>, n: int) -> Seq<char>
    decreases n,
{
    if n <= 0 {
        Seq::<char>::empty()
    } else {
        let c = channels[n - 1];
        channel_lines(channels, n - 1) + "  ch"@ + text::decimal(c.index as int) + ": "@ + c.name@
            + "\n"@
    }
}

/// Lists the Kvaser channels that canlib discovers. The quickest check that the
/// driver and adapters are usable before touching the hardware link. A driver
/// error is handed on.
pub fn kvaser_probe(found: Result<Vec<ListedChannel>, String>) -> (r: Result<String, String>)
    ensures
        match found {
            Ok(channels) => r matches Ok(s) && s@ == text::decimal(channels@.len() as int)
                + " Kvaser channel(s):\n"@ + channel_lines(channels@, channels@.len() as int),
            Err(e) => r == Err::<String, String>(e),
        },
{
    match found {
        Ok(channels) => {
            let mut s: String = String::new();
            text::push_u64(&mut s, channels.len() as u64);
            s.append(" Kvaser channel(s):\n");
            let ghost head = s@;
            assert(head =~= text::decimal(channels@.len() as int) + " Kvaser channel(s):\n"@);
            for i in 0..channels.len()
                invariant
                    s@ =~= head + channel_lines(channels@, i as int),
            {
                s.append("  ch");
                text::push_i64(&mut s, channels[i].index as i64);
                s.append(": ");
                s.append(channels[i].name.as_str());
                s.append("\n");
            }
            Ok(s)
        },
        Err(e) => Err(e),
    }
}

/// What a conversion does first: refuses to write over its own input.
pub open spec fn convert_refusal(same_file: bool) -> Option<Seq<char>> {
    if same_file {
        Some("--convert: input and output are the same file"@)
    } else {
        None
    }
}

/// Refuses a conversion onto its own input: truncating the file while the stream
/// reads it would corrupt the data. `input` and `output` are the canonical paths,
/// where there are any.
pub fn check_convert(input: &Option<String>, output: &Option<String>) -> (r: Result<(), String>)
    ensures
        match convert_refusal(
            *input is Some && *output is Some && (*input)->0@ == (*output)->0@,
        ) {
            Some(e) => r matches Err(m) && m@ == e,
            None => r is Ok,
        },
{
    if let (Some(a), Some(b)) = (input, output) {
        if *a == *b {
            return Err("--convert: input and output are the same file".to_owned());
        }
    }
    Ok(())
}

/// The report of a conversion.
pub open spec fn convert_text(n: u64, input: Seq<char>, output: Seq<char>) -> Seq<char> {
    "converted "@ + text::decimal(n as int) + " frame(s)\n  input : "@ + input + "\n  output: "@
        + output
}

/// The report of a conversion.
pub fn convert_report(n: u64, input: &str, output: &str) -> (r: String)
    ensures
        r@ == convert_text(n, input@, output@),
{
    let mut s: String = "converted ".to_owned();
    text::push_u64(&mut s, n);
    s.append(" frame(s)\n  input : ");
    s.append(input);
    s.append("\n  output: ");
    s.append(output);
    s
}

/// An id that a script names, with its format.
pub open spec fn id_text(id: (u32, bool)) -> Seq<char> {
    text::hex_prefixed(id.0 as nat) + (if id.1 {
        "x"@
    } else {
        ""@
    })
}

/// The ids, with commas between them.
pub open spec fn ids_text(ids: Seq<(u32, bool)>) -> Seq<char> {
    text::joined(ids.map_values(|id: (u32, bool)| id_text(id)), ", "@)
}

fn id_list(ids: &Vec<(u32, bool)>) -> (r: String)
    ensures
        r@ == ids_text(ids@),
{
    let mut parts: Vec<String> = Vec::new();
    for i in 0..ids.len()
        invariant
            text::views(parts@) =~= ids@.subrange(0, i as int).map_values(
                |id: (u32, bool)| id_text(id),
            ),
    {
        let mut s: String = String::new();
        text::push_hex_prefixed(&mut s, ids[i].0 as u64);
        if ids[i].1 {
            s.append("x");
        } else {
            s.append("");
        }
        assert(s@ =~= id_text(ids@[i as int]));
        let ghost before = parts@;
        parts.push(s);
        assert(text::views(parts@) =~= text::views(before).push(s@));
    }
    assert(ids@.subrange(0, ids@.len() as int) =~= ids@);
    text::join(&parts, ", ")
}

/// One static response of a script: the events that arm a timer, and what the
/// timer sends.
#[derive(Debug)]
pub struct ResponseRow {
    pub armed_by: Vec<String>,
    pub timer_label: String,
    pub sends: Vec<(u32, bool)>,
}

/// What compiling a script gave.
#[derive(Debug)]
pub struct CompiledScript {
    pub handlers: usize,
    pub responses: Vec<ResponseRow>,
    pub sends: Vec<(u32, bool)>,
    pub receives: Vec<(u32, bool)>,
    /// The lines of the database-backed checks.
    pub checks: Vec<String>,
}

/// A script file and what became of it: compiled, or the error of reading or
/// compiling it.
#[derive(Debug)]
pub struct ScriptOutcome {
    pub path: String,
    pub result: Result<CompiledScript, String>,
}

/// The lines of the first `n` responses. A timer that nobody arms is no response.
pub open spec fn response_lines(rows: Seq<ResponseRow>, n: int) -> Seq<Seq<char>>
    decreases n,
{
    if n <= 0 {
        Seq::<Seq<char>>::empty()
    } else {
        let row = rows[n - 1];
        let rest = response_lines(rows, n - 1);
        if row.armed_by@.len() == 0 {
            rest
        } else {
            rest.push(
                "        response: "@ + text::joined(text::views(row.armed_by@), ", "@)
                    + " arms \""@ + row.timer_label@ + "\" -> sends "@ + ids_text(row.sends@),
            )
        }
    }
}

/// The text, or a dash where it is empty.
pub open spec fn or_dash(t: Seq<char>) -> Seq<char> {
    if t.len() == 0 {
        "-"@
    } else {
        t
    }
}

/// The lines about one script.
pub open spec fn outcome_lines(o: ScriptOutcome) -> Seq<Seq<char>> {
    match o.result {
        Ok(c) => seq!["ok      "@ + o.path@ + " ("@ + text::decimal(c.handlers as int) + " handlers)"@]
            + response_lines(c.responses@, c.responses@.len() as int) + seq![
            "        sends: "@ + or_dash(ids_text(c.sends@)),
            "        receives: "@ + or_dash(ids_text(c.receives@)),
        ] + c.checks@.map_values(|l: String| "        "@ + l@),
        Err(e) => seq!["failed "@ + o.path@ + "\n  "@ + e@],
    }
}

/// The lines about the first `n` scripts.
pub open spec fn report_lines(outcomes: Seq<ScriptOutcome>, n: int) -> Seq<Seq<char>>
    decreases n,
{
    if n <= 0 {
        Seq::<Seq<char>>::empty()
    } else {
        report_lines(outcomes, n - 1) + outcome_lines(outcomes[n - 1])
    }
}

/// The report of a script check.
pub open spec fn check_text(outcomes: Seq<ScriptOutcome>) -> Seq<char> {
    text::joined(report_lines(outcomes, outcomes.len() as int), "\n"@) + "\n"@
}

/// Some script did not compile.
pub open spec fn some_failed(outcomes: Seq<ScriptOutcome>) -> bool {
    exists|k: int| 0 <= k < outcomes.len() && (#[trigger] outcomes[k]).result is Err
}

fn push_line(lines: &mut Vec<String>, line: String)
    ensures
        text::views(final(lines)@) == text::views(old(lines)@).push(line@),
{
    let ghost before = lines@;
    lines.push(line);
    assert(text::views(lines@) =~= text::views(before).push(line@));
}

fn with_dash(t: String) -> (r: String)
    ensures
        r@ == or_dash(t@),
{
    if t.as_str().is_empty() {
        "-".to_owned()
    } else {
        t
    }
}

fn push_responses(lines: &mut Vec<String>, rows: &Vec<ResponseRow>)
    ensures
        text::views(final(lines)@) == text::views(old(lines)@) + response_lines(
            rows@,
            rows@.len() as int,
        ),
{
    let ghost before = text::views(lines@);
    for i in 0..rows.len()
        invariant
            text::views(lines@) =~= before + response_lines(rows@, i as int),
    {
        if rows[i].armed_by.len() > 0 {
            let mut s: String = "        response: ".to_owned();
            s.append(text::join(&rows[i].armed_by, ", ").as_str());
            s.append(" arms \"");
            s.append(rows[i].timer_label.as_str());
            s.append("\" -> sends ");
            s.append(id_list(&rows[i].sends).as_str());
            push_line(lines, s);
        }
    }
}

fn push_outcome(lines: &mut Vec<String>, o: &ScriptOutcome)
    ensures
        text::views(final(lines)@) == text::views(old(lines)@) + outcome_lines(*o),
{
    let ghost before = text::views(lines@);
    match &o.result {
        Ok(c) => {
            let mut head: String = "ok      ".to_owned();
            head.append(o.path.as_str());
            head.append(" (");
            text::push_u64(&mut head, c.handlers as u64);
            head.append(" handlers)");
            let ghost first = head@;
            push_line(lines, head);
            push_responses(lines, &c.responses);
            let ghost responses = response_lines(c.responses@, c.responses@.len() as int);
            let mut sends: String = "        sends: ".to_owned();
            sends.append(with_dash(id_list(&c.sends)).as_str());
            let ghost second = sends@;
            push_line(lines, sends);
            let mut receives: String = "        receives: ".to_owned();
            receives.append(with_dash(id_list(&c.receives)).as_str());
            let ghost third = receives@;
            push_line(lines, receives);
            let ghost facts = text::views(lines@);
            assert(facts =~= before + seq![first] + responses + seq![second, third]);
            for i in 0..c.checks.len()
                invariant
                    text::views(lines@) =~= facts + c.checks@.subrange(0, i as int).map_values(
                        |l: String| "        "@ + l@,
                    ),
            {
                let mut s: String = "        ".to_owned();
                s.append(c.checks[i].as_str());
                let ghost line = s@;
                push_line(lines, s);
                assert(c.checks@.subrange(0, i + 1).map_values(|l: String| "        "@ + l@)
                    =~= c.checks@.subrange(0, i as int).map_values(
                    |l: String| "        "@ + l@,
                ).push(line));
            }
            assert(c.checks@.subrange(0, c.checks@.len() as int) =~= c.checks@);
            assert(text::views(lines@) =~= before + outcome_lines(*o));
        },
        Err(e) => {
            let mut s: String = "failed ".to_owned();
            s.append(o.path.as_str());
            s.append("\n  ");
            s.append(e.as_str());
            push_line(lines, s);
            assert(text::views(lines@) =~= before + outcome_lines(*o));
        },
    }
}

/// Reports the outcome per script file. A file that failed to read or compile
/// prints its error and makes the whole run fail.
pub fn check_scripts(outcomes: &Vec<ScriptOutcome>) -> (r: Result<String, String>)
    ensures
        some_failed(outcomes@) ==> (r matches Err(s) && s@ == check_text(outcomes@)),
        !some_failed(outcomes@) ==> (r matches Ok(s) && s@ == check_text(outcomes@)),
{
    let mut lines: Vec<String> = Vec::new();
    let mut failed: bool = false;
    assert(text::views(lines@) =~= Seq::<Seq<char>>::empty());
    for i in 0..outcomes.len()
        invariant
            text::views(lines@) == report_lines(outcomes@, i as int),
            failed == exists|k: int| 0 <= k < i && (#[trigger] outcomes@[k]).result is Err,
    {
        push_outcome(&mut lines, &outcomes[i]);
        if outcomes[i].result.is_err() {
            failed = true;
            assert(outcomes@[i as int].result is Err);
        }
    }
    let mut report: String = text::join(&lines, "\n");
    report.append("\n");
    if failed {
        Err(report)
    } else {
        Ok(report)
    }
}

/// Why a headless run ended.
#[derive(Clone, Copy, Debug, PartialEq, Eq, Structural)]
pub enum StopReason {
    EndOfLog,
    SourceStopped,
    DurationLimit,
}

impl StopReason {
    pub open spec fn text(self) -> Seq<char> {
        match self {
            StopReason::EndOfLog => "end of log"@,
            StopReason::SourceStopped => "source stopped"@,
            StopReason::DurationLimit => "duration limit"@,
        }
    }

    pub fn label(self) -> (r: &'static str)
        ensures
            r@ == self.text(),
    {
        match self {
            StopReason::EndOfLog => "end of log",
            StopReason::SourceStopped => "source stopped",
            StopReason::DurationLimit => "duration limit",
        }
    }
}

/// One lap of a headless run: whether a timeline has been seen, and why the run
/// ends here, if it does. `position` is the replay's playhead and length in
/// microseconds, where there is a timeline; `over_limit` says that the duration
/// is used up. Reaching the end goes before the limit.
pub open spec fn lap_outcome(
    saw_timeline: bool,
    replaying: bool,
    position: Option<(u64, u64)>,
    over_limit: bool,
) -> (bool, Option<StopReason>) {
    let saw = saw_timeline || (replaying && position is Some);
    if replaying && position is Some && (position->0).0 >= (position->0).1 {
        (saw, Some(StopReason::EndOfLog))
    } else if replaying && position is None && saw_timeline {
        (saw, Some(StopReason::SourceStopped))
    } else if over_limit {
        (saw, Some(StopReason::DurationLimit))
    } else {
        (saw, None)
    }
}

/// One lap of a headless run.
pub fn run_lap(
    saw_timeline: bool,
    replaying: bool,
    position: Option<(u64, u64)>,
    over_limit: bool,
) -> (r: (bool, Option<StopReason>))
    ensures
        r == lap_outcome(saw_timeline, replaying, position, over_limit),
{
    if replaying {
        match position {
            Some((pos, dur)) => {
                if pos >= dur {
                    return (true, Some(StopReason::EndOfLog));
                }
            },
            None => {
                if saw_timeline {
                    return (true, Some(StopReason::SourceStopped));
                }
            },
        }
    }
    let saw: bool = saw_timeline || (replaying && position.is_some());
    if over_limit {
        (saw, Some(StopReason::DurationLimit))
    } else {
        (saw, None)
    }
}

/// A replay that never produced a timeline is an error.
pub fn check_timeline(replaying: bool, saw_timeline: bool) -> (r: Result<(), String>)
    ensures
        r is Ok == !(replaying && !saw_timeline),
        r matches Err(m) ==> m@
            == "the replay never produced a timeline (is the log empty?)"@,
{
    if replaying && !saw_timeline {
        Err("the replay never produced a timeline (is the log empty?)".to_owned())
    } else {
        Ok(())
    }
}

/// What a finished run reports. Numbers with decimals come as text.
#[derive(Debug)]
pub struct RunSummary {
    pub reason: StopReason,
    pub frames: u64,
    /// The replayed log with the playhead, the length and the speed; `None` for a
    /// simulation.
    pub replay: Option<(String, String, String, String)>,
    /// The simulated project with its clock.
    pub project: Option<(String, String)>,
    pub profile: Option<String>,
    pub wall_time: String,
    pub stats_csv: Option<String>,
}

/// The report of a finished run.
pub open spec fn run_text(s: RunSummary) -> Seq<char> {
    let head = match s.replay {
        Some((log, pos, dur, speed)) => "replay finished ("@ + s.reason.text()
            + ")\n  log        : "@ + log@ + "\n  frames     : "@ + text::decimal(s.frames as int)
            + "\n  playhead   : "@ + pos@ + " / "@ + dur@ + " s at "@ + speed@ + "x\n"@,
        None => {
            let project = match s.project {
                Some(p) => p.0@,
                None => ""@,
            };
            let clock = match s.project {
                Some(p) => p.1@,
                None => ""@,
            };
            "simulation finished ("@ + s.reason.text() + ")\n  project    : "@ + project
                + "\n  frames     : "@ + text::decimal(s.frames as int) + "\n  sim clock  : "@
                + clock + " s\n"@
        },
    };
    let profile = match s.profile {
        Some(p) => head + "  profile    : "@ + p@ + "\n"@,
        None => head,
    };
    let wall = profile + "  wall time  : "@ + s.wall_time@ + " s\n"@;
    match s.stats_csv {
        Some(c) => wall + "  stats csv  : "@ + c@ + "\n"@,
        None => wall,
    }
}

/// The report of a finished run.
pub fn run_report(s: &RunSummary) -> (r: String)
    ensures
        r@ == run_text(*s),
{
    let mut out: String = String::new();
    match &s.replay {
        Some((log, pos, dur, speed)) => {
            out.append("replay finished (");
            out.append(s.reason.label());
            out.append(")\n  log        : ");
            out.append(log.as_str());
            out.append("\n  frames     : ");
            text::push_u64(&mut out, s.frames);
            out.append("\n  playhead   : ");
            out.append(pos.as_str());
            out.append(" / ");
            out.append(dur.as_str());
            out.append(" s at ");
            out.append(speed.as_str());
            out.append("x\n");
        },
        None => {
            out.append("simulation finished (");
            out.append(s.reason.label());
            out.append(")\n  project    : ");
            match &s.project {
                Some(p) => out.append(p.0.as_str()),
                None => out.append(""),
            }
            out.append("\n  frames     : ");
            text::push_u64(&mut out, s.frames);
            out.append("\n  sim clock  : ");
            match &s.project {
                Some(p) => out.append(p.1.as_str()),
                None => out.append(""),
            }
            out.append(" s\n");
        },
    }
    if let Some(p) = &s.profile {
        out.append("  profile    : ");
        out.append(p.as_str());
        out.append("\n");
    }
    out.append("  wall time  : ");
    out.append(s.wall_time.as_str());
    out.append(" s\n");
    if let Some(c) = &s.stats_csv {
        out.append("  stats csv  : ");
        out.append(c.as_str());
        out.append("\n");
    }
    assert(out@ =~= run_text(*s));
    out
}

/// A Vector channel as the driver lists it.
#[derive(Debug)]
pub struct VectorChannel {
    pub index: i32,
    pub name: String,
    pub bus_caps: u32,
    pub can: bool,
    pub flexray: bool,
}

/// "true" or "false".
pub open spec fn bool_text(b: bool) -> Seq<char> {
    if b {
        "true"@
    } else {
        "false"@
    }
}

fn push_bool(out: &mut String, b: bool)
    ensures
        final(out)@ == old(out)@ + bool_text(b),
{
    if b {
        out.append("true");
    } else {
        out.append("false");
    }
}

/// The line of a Vector channel.
pub open spec fn vector_line_text(c: VectorChannel) -> Seq<char> {
    "  ch"@ + text::decimal(c.index as int) + ": "@ + c.name@ + " [caps=0x"@ + text::hex_padded(
        c.bus_caps as nat,
        8,
    ) + " can:"@ + bool_text(c.can) + " flexray:"@ + bool_text(c.flexray) + "]\n"@
}

fn vector_line(c: &VectorChannel) -> (s: String)
    ensures
        s@ == vector_line_text(*c),
{
    let mut s: String = "  ch".to_owned();
    text::push_i64(&mut s, c.index as i64);
    s.append(": ");
    s.append(c.name.as_str());
    s.append(" [caps=0x");
    text::push_hex(&mut s, c.bus_caps as u64, 8);
    s.append(" can:");
    push_bool(&mut s, c.can);
    s.append(" flexray:");
    push_bool(&mut s, c.flexray);
    s.append("]\n");
    s
}

/// The lines of the first `n` Vector channels.
pub open spec fn vector_lines(channels: Seq<VectorChannel>, n: int) -> Seq<char>
    decreases n,
{
    if n <= 0 {
        Seq::<char>::empty()
    } else {
        vector_lines(channels, n - 1) + vector_line_text(channels[n - 1])
    }
}

/// The list of Vector channels that opens a probe report.
pub fn vector_channels_report(channels: &Vec<VectorChannel>) -> (r: String)
    ensures
        r@ == text::decimal(channels@.len() as int) + " Vector channel(s):\n"@ + vector_lines(
            channels@,
            channels@.len() as int,
        ),
{
    let mut s: String = String::new();
    text::push_u64(&mut s, channels.len() as u64);
    s.append(" Vector channel(s):\n");
    let ghost head = s@;
    assert(head =~= text::decimal(channels@.len() as int) + " Vector channel(s):\n"@);
    for i in 0..channels.len()
        invariant
            s@ =~= head + vector_lines(channels@, i as int),
    {
        s.append(vector_line(&channels[i]).as_str());
    }
    s
}

/// What opening a Vector channel for FlexRay reception gave.
#[derive(Debug)]
pub enum OpenOutcome {
    /// The channel opened; the status of its cluster configuration, where it
    /// could be read.
    Opened(Option<u32>),
    Failed(String),
}

/// The status says that the channel has a valid cluster configuration. `valid` is
/// the driver's bit for it.
pub open spec fn has_cluster_config(o: OpenOutcome, valid: u32) -> bool {
    o matches OpenOutcome::Opened(Some(status)) && status & valid != 0
}

/// The channel can be drained: it opened, and reports FlexRay or a valid cluster
/// configuration.
pub open spec fn is_usable(o: OpenOutcome, flexray: bool, valid: u32) -> bool {
    o is Opened && (has_cluster_config(o, valid) || flexray)
}

/// The line about one opened channel.
pub open spec fn open_line(index: i32, o: OpenOutcome, valid: u32) -> Seq<char> {
    let head = "  ch"@ + text::decimal(index as int) + ": "@;
    match o {
        OpenOutcome::Opened(Some(status)) => head + "open OK, status=0x"@ + text::hex_padded(
            status as nat,
            8,
        ) + (if has_cluster_config(o, valid) {
            " VALID_CLUSTER_CFG"@
        } else {
            ""@
        }) + "\n"@,
        OpenOutcome::Opened(None) => head + "open OK, config read failed\n"@,
        OpenOutcome::Failed(e) => head + e@ + "\n"@,
    }
}

/// The line about one opened channel, and whether it is usable.
fn scan_line(c: &VectorChannel, o: &OpenOutcome, valid: u32) -> (r: (String, bool))
    ensures
        r.0@ == open_line(c.index, *o, valid),
        r.1 == is_usable(*o, c.flexray, valid),
{
    let mut s: String = "  ch".to_owned();
    text::push_i64(&mut s, c.index as i64);
    s.append(": ");
    match o {
        OpenOutcome::Opened(Some(status)) => {
            let configured: bool = *status & valid != 0;
            s.append("open OK, status=0x");
            text::push_hex(&mut s, *status as u64, 8);
            if configured {
                s.append(" VALID_CLUSTER_CFG");
            } else {
                s.append("");
            }
            s.append("\n");
            (s, configured || c.flexray)
        },
        OpenOutcome::Opened(None) => {
            s.append("open OK, config read failed\n");
            (s, c.flexray)
        },
        OpenOutcome::Failed(e) => {
            s.append(e.as_str());
            s.append("\n");
            (s, false)
        },
    }
}

/// The lines about the first `n` channels.
pub open spec fn scan_lines(
    channels: Seq<VectorChannel>,
    outcomes: Seq<OpenOutcome>,
    valid: u32,
    n: int,
) -> Seq<char>
    decreases n,
{
    if n <= 0 {
        Seq::<char>::empty()
    } else {
        scan_lines(channels, outcomes, valid, n - 1) + open_line(
            channels[n - 1].index,
            outcomes[n - 1],
            valid,
        )
    }
}

/// The usable ones among the first `n` channels.
pub open spec fn usable_channels(
    channels: Seq<VectorChannel>,
    outcomes: Seq<OpenOutcome>,
    valid: u32,
    n: int,
) -> Seq<i32>
    decreases n,
{
    if n <= 0 {
        Seq::<i32>::empty()
    } else if is_usable(outcomes[n - 1], channels[n - 1].flexray, valid) {
        usable_channels(channels, outcomes, valid, n - 1).push(channels[n - 1].index)
    } else {
        usable_channels(channels, outcomes, valid, n - 1)
    }
}

/// How the open scan ends: with what is drained next, or with why nothing is.
pub open spec fn scan_tail(usable: Seq<i32>, described: bool) -> Seq<char> {
    if usable.len() > 0 {
        "draining usable channel(s), 2 s each:\n"@
    } else {
        "no channel usable for FlexRay reception (open failed everywhere, or no valid cluster config)\n"@
            + (if described {
            ""@
        } else {
            "hint: pass --fibex <cluster description> so the channels can be configured for reception\n"@
        })
    }
}

/// The report of the open scan with the channels to drain: every channel is
/// opened, and those are usable that report FlexRay or a valid cluster
/// configuration.
pub fn open_scan(
    channels: &Vec<VectorChannel>,
    outcomes: &Vec<OpenOutcome>,
    valid: u32,
    described: bool,
) -> (r: (String, Vec<i32>))
    requires
        channels@.len() == outcomes@.len(),
    ensures
        r.1@ == usable_channels(channels@, outcomes@, valid, channels@.len() as int),
        r.0@ == "FlexRay open scan (rx-only):\n"@ + scan_lines(
            channels@,
            outcomes@,
            valid,
            channels@.len() as int,
        ) + scan_tail(r.1@, described),
{
    let mut s: String = "FlexRay open scan (rx-only):\n".to_owned();
    let ghost head = s@;
    let mut usable: Vec<i32> = Vec::new();
    for i in 0..channels.len()
        invariant
            channels@.len() == outcomes@.len(),
            s@ =~= head + scan_lines(channels@, outcomes@, valid, i as int),
            usable@ == usable_channels(channels@, outcomes@, valid, i as int),
    {
        let (line, ready): (String, bool) = scan_line(&channels[i], &outcomes[i], valid);
        s.append(line.as_str());
        if ready {
            usable.push(channels[i].index);
        }
        assert(s@ =~= head + scan_lines(channels@, outcomes@, valid, i + 1));
    }
    if usable.len() > 0 {
        s.append("draining usable channel(s), 2 s each:\n");
    } else {
        s.append(
            "no channel usable for FlexRay reception (open failed everywhere, or no valid cluster config)\n",
        );
        if described {
            s.append("");
        } else {
            s.append(
                "hint: pass --fibex <cluster description> so the channels can be configured for reception\n",
            );
        }
    }
    assert(s@ =~= head + scan_lines(channels@, outcomes@, valid, channels@.len() as int)
        + scan_tail(usable@, described));
    (s, usable)
}

} // verus!
