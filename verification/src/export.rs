//! What the windows write out: the frames of a trace window, and the comma-separated
//! reports. Figures that are no integers come as texts.

use vstd::prelude::*;
use vstd::string::*;
use crate::aggregate::MessageAgg;
use crate::app::App;
use crate::app_text;
use crate::app_text::{decimal_text, direction_text, name_of_message, trace_match};
use crate::can::frame::CanFrame;
use crate::channel;
use crate::channel::{channel_name, Channel};
use crate::dbc::SymbolTable;
use crate::monitor::{Kind, Latch};
use crate::observe::Subscription;
use crate::observers;
use crate::observers::{Reading, SubState};
use crate::table;
use crate::table::BUS_UNIT;
use crate::text;
use crate::workspace::{GfxSignal, TraceWin};

verus! {

/// A line of a report: its fields, with commas between.
pub open spec fn csv_line(fields: Seq<Seq<char>>) -> Seq<char> {
    text::joined(fields, ","@) + "\n"@
}

fn push_line(out: &mut String, fields: &Vec<String>)
    ensures
        final(out)@ == old(out)@ + csv_line(text::views(fields@)),
{
    let line: String = text::join(fields, ",");
    out.append(line.as_str());
    out.append("\n");
    assert(out@ =~= old(out)@ + csv_line(text::views(fields@)));
}

/// The frames among the first `n` that a trace window shows, in their order.
pub open spec fn shown_frames(
    channels: Seq<Channel>,
    w: TraceWin,
    frames: Seq<CanFrame>,
    n: int,
) -> Seq<CanFrame>
    decreases n,
{
    if n <= 0 {
        Seq::empty()
    } else {
        let before = shown_frames(channels, w, frames, n - 1);
        if app_text::shows_frame(channels, w, frames[n - 1]) {
            before.push(frames[n - 1])
        } else {
            before
        }
    }
}

/// The texts of one row's intervals in milliseconds, with three decimals.
pub struct CycleTexts {
    pub min: String,
    pub avg: String,
    pub max: String,
}

/// An interval takes two frames.
pub open spec fn interval_text(a: MessageAgg, t: Seq<char>) -> Seq<char> {
    if a.count > 1 {
        t
    } else {
        "0.000"@
    }
}

fn interval(a: &MessageAgg, t: &String) -> (s: String)
    ensures
        s@ == interval_text(*a, t@),
{
    if a.count > 1 {
        t.clone()
    } else {
        "0.000".to_owned()
    }
}

/// One line of the statistics report.
pub open spec fn stats_line(channels: Seq<Channel>, a: MessageAgg, t: CycleTexts) -> Seq<char> {
    csv_line(
        seq![
            channel::bus_name(channels, a.channel),
            text::decimal(a.id as int),
            app_text::shown_name(channels, a.channel, a.id),
            text::decimal(a.count as int),
            interval_text(a, t.min@),
            interval_text(a, t.avg@),
            interval_text(a, t.max@),
            text::decimal(a.len as int),
            a.flags.tag_spec(),
        ],
    )
}

/// The statistics report over the first `n` rows.
pub open spec fn stats_report(
    channels: Seq<Channel>,
    rows: Seq<MessageAgg>,
    texts: Seq<CycleTexts>,
    n: int,
) -> Seq<char>
    decreases n,
{
    if n <= 0 {
        "bus,id,name,count,cycle_min_ms,cycle_avg_ms,cycle_max_ms,len,flags\n"@
    } else {
        stats_report(channels, rows, texts, n - 1) + stats_line(
            channels,
            rows[n - 1],
            texts[n - 1],
        )
    }
}

/// The bytes in hexadecimal, with spaces between.
pub open spec fn payload_text(bytes: Seq<u8>) -> Seq<char> {
    text::joined(Seq::new(bytes.len(), |i: int| text::hex_padded(bytes[i] as nat, 2)), " "@)
}

fn bytes_text(bytes: &[u8]) -> (s: String)
    ensures
        s@ == payload_text(bytes@),
{
    let mut parts: Vec<String> = Vec::new();
    let ghost whole = Seq::new(bytes@.len(), |i: int| text::hex_padded(bytes@[i] as nat, 2));
    assert(text::views(parts@) =~= whole.subrange(0, 0));
    for k in 0..bytes.len()
        invariant
            whole == Seq::new(bytes@.len(), |i: int| text::hex_padded(bytes@[i] as nat, 2)),
            text::views(parts@) == whole.subrange(0, k as int),
    {
        let ghost held = parts@;
        let mut t: String = String::new();
        text::push_hex(&mut t, bytes[k] as u64, 2);
        let ghost shown = t@;
        assert(shown =~= whole[k as int]);
        parts.push(t);
        assert(text::views(parts@) =~= text::views(held).push(shown));
        assert(text::views(parts@) =~= whole.subrange(0, k + 1));
    }
    assert(whole.subrange(0, bytes@.len() as int) =~= whole);
    text::join(&parts, " ")
}

/// One line of the messages report; the text is the smoothed interval.
pub open spec fn message_line(channels: Seq<Channel>, a: MessageAgg, cycle: Seq<char>) -> Seq<
    char,
> {
    csv_line(
        seq![
            channel::bus_name(channels, a.channel),
            text::decimal(a.id as int),
            app_text::shown_name(channels, a.channel, a.id),
            app_text::dir_text(a.dir),
            text::decimal(a.count as int),
            interval_text(a, cycle),
            text::decimal(a.len as int),
            a.flags.tag_spec(),
            payload_text(a.payload_spec()),
        ],
    )
}

/// The messages report over the first `n` rows.
pub open spec fn message_report(
    channels: Seq<Channel>,
    rows: Seq<MessageAgg>,
    cycles: Seq<String>,
    n: int,
) -> Seq<char>
    decreases n,
{
    if n <= 0 {
        "bus,id,name,dir,count,cycle_ms,len,flags,data\n"@
    } else {
        message_report(channels, rows, cycles, n - 1) + message_line(
            channels,
            rows[n - 1],
            cycles[n - 1]@,
        )
    }
}

/// Where the subscriptions to the first `n` signals stand that are visible and
/// subscribed to.
pub open spec fn visible_subs_spec(signals: Seq<GfxSignal>, subs: Seq<SubState>, n: int) -> Seq<
    usize,
>
    decreases n,
{
    if n <= 0 {
        Seq::empty()
    } else {
        let before = visible_subs_spec(signals, subs, n - 1);
        let k = observers::sub_index(subs, signals[n - 1].key_spec(), 0);
        if signals[n - 1].visible && k >= 0 {
            before.push(k as usize)
        } else {
            before
        }
    }
}

/// The samples of one signal, as lines of the history report, over the first `n`.
pub open spec fn history_lines(
    channels: Seq<Channel>,
    s: SubState,
    values: Seq<String>,
    n: int,
) -> Seq<char>
    decreases n,
{
    if n <= 0 {
        Seq::empty()
    } else {
        history_lines(channels, s, values, n - 1) + csv_line(
            seq![
                text::decimal(s.history[n - 1].0 as int),
                channel::bus_name(channels, s.key.ch),
                s.key.signal,
                values[n - 1]@,
            ],
        )
    }
}

/// The history report over the first `n` of the listed subscriptions.
pub open spec fn history_report(
    channels: Seq<Channel>,
    subs: Seq<SubState>,
    shown: Seq<usize>,
    values: Seq<Vec<String>>,
    n: int,
) -> Seq<char>
    decreases n,
{
    if n <= 0 {
        "time_us,bus,signal,value\n"@
    } else {
        let s = subs[shown[n - 1] as int];
        history_report(channels, subs, shown, values, n - 1) + history_lines(
            channels,
            s,
            values[n - 1]@,
            s.history.len() as int,
        )
    }
}

/// None of the first `n` listed subscriptions holds a sample.
pub open spec fn no_history(subs: Seq<SubState>, shown: Seq<usize>, n: int) -> bool {
    forall|i: int| 0 <= i < n ==> subs[#[trigger] shown[i] as int].history.len() == 0
}

/// One line of the values report.
pub open spec fn value_line(channels: Seq<Channel>, s: SubState, value: Seq<char>) -> Seq<char> {
    csv_line(
        seq![
            channel::bus_name(channels, s.key.ch),
            s.key.signal,
            value,
            s.unit,
            s.type_tag,
            match s.label {
                Some(l) => l,
                None => Seq::empty(),
            },
        ],
    )
}

/// The values report over the first `n` of the listed subscriptions.
pub open spec fn value_report(
    channels: Seq<Channel>,
    subs: Seq<SubState>,
    shown: Seq<usize>,
    values: Seq<String>,
    n: int,
) -> Seq<char>
    decreases n,
{
    if n <= 0 {
        "bus,signal,value,unit,type,label\n"@
    } else {
        value_report(channels, subs, shown, values, n - 1) + value_line(
            channels,
            subs[shown[n - 1] as int],
            values[n - 1]@,
        )
    }
}

impl Kind {
    /// The name of the verdict.
    pub open spec fn label_spec(self) -> Seq<char> {
        match self {
            Kind::Unknown => "Unknown id"@,
            Kind::Dlc => "Dlc"@,
            Kind::Cycle => "Cycle"@,
            Kind::Missing => "Missing"@,
        }
    }

    pub fn label(self) -> (s: &'static str)
        ensures
            s@ == self.label_spec(),
    {
        match self {
            Kind::Unknown => "Unknown id",
            Kind::Dlc => "Dlc",
            Kind::Cycle => "Cycle",
            Kind::Missing => "Missing",
        }
    }
}

/// The texts of one verdict's quantities, and of when it was first and last given, in
/// seconds with three decimals.
pub struct VerdictTexts {
    pub declared: String,
    pub measured: String,
    pub first_s: String,
    pub last_s: String,
}

/// The database line of one bus.
pub open spec fn database_line(c: Channel) -> Seq<char> {
    let path = if c.dbc_paths@.len() > 0 {
        c.dbc_paths@[0]@
    } else {
        Seq::empty()
    };
    csv_line(
        seq![
            "# database"@,
            c.name@,
            if text::trimmed(path).len() == 0 {
                "(none)"@
            } else {
                path
            },
        ],
    )
}

/// The database lines of the first `n` buses.
pub open spec fn database_lines(channels: Seq<Channel>, n: int) -> Seq<char>
    decreases n,
{
    if n <= 0 {
        Seq::empty()
    } else {
        database_lines(channels, n - 1) + database_line(channels[n - 1])
    }
}

/// How many of the first `n` messages of a database declare a period.
pub open spec fn periodic_in(t: SymbolTable, n: int) -> nat
    decreases n,
{
    if n <= 0 {
        0
    } else {
        let id = t.order@[n - 1];
        let periodic = t.messages@.dom().contains(id) && (match t.messages@[id].cycle_us {
            Some(d) => d > 0,
            None => false,
        });
        periodic_in(t, n - 1) + if periodic {
            1nat
        } else {
            0nat
        }
    }
}

/// How many messages of the first `n` buses declare a period; a number that no machine
/// holds is told as the largest one.
pub open spec fn periodic_messages(channels: Seq<Channel>, n: int) -> int
    decreases n,
{
    if n <= 0 {
        0
    } else {
        let before = periodic_messages(channels, n - 1);
        match channels[n - 1].dbc {
            Some(t) => {
                let sum = before + periodic_in(*t, t.order@.len() as int);
                if sum > u64::MAX {
                    u64::MAX as int
                } else {
                    sum
                }
            },
            None => before,
        }
    }
}

/// The premises that a specification report was judged under.
pub open spec fn premises(app: App) -> Seq<char> {
    let channels = app.core.channels@;
    database_lines(channels, channels.len() as int) + "# tolerance,+/-"@ + text::decimal(
        app.spec_tol_pct as int,
    ) + "%\n# grace,"@ + text::decimal(app.spec_grace as int)
        + "x declared period\n# periodic messages declared,"@ + text::decimal(
        periodic_messages(channels, channels.len() as int),
    ) + "\nbus,id,name,rule,declared,measured,count,first_s,last_s\n"@
}

/// The name of a message in the specification report.
pub open spec fn report_name(channels: Seq<Channel>, ch: u8, id: u32) -> Seq<char> {
    match channel::table_on(channels, ch) {
        Some(t) => if t.messages@.contains_key(id) {
            t.messages@[id].name@
        } else {
            "not in database"@
        },
        None => "not in database"@,
    }
}

/// One line of the specification report.
pub open spec fn verdict_line(
    channels: Seq<Channel>,
    key: u64,
    l: Latch,
    t: VerdictTexts,
) -> Seq<char> {
    let ch = table::key_bus(key) as u8;
    let id = table::key_id(key) as u32;
    csv_line(
        seq![
            channel::bus_name(channels, ch),
            text::hex_padded(id as nat, 1),
            report_name(channels, ch, id),
            Kind::of_code((key % 4) as u64).label_spec(),
            t.declared@,
            t.measured@,
            text::decimal(l.count as int),
            t.first_s@,
            t.last_s@,
        ],
    )
}

/// The lines of the first `n` verdicts, in the order of their buses, identifiers and
/// kinds.
pub open spec fn verdict_lines(
    channels: Seq<Channel>,
    rows: Seq<(u64, Latch)>,
    texts: Seq<VerdictTexts>,
    n: int,
) -> Seq<char>
    decreases n,
{
    if n <= 0 {
        Seq::empty()
    } else {
        verdict_lines(channels, rows, texts, n - 1) + verdict_line(
            channels,
            rows[n - 1].0,
            rows[n - 1].1,
            texts[n - 1],
        )
    }
}

fn count_periodic(t: &SymbolTable) -> (n: u64)
    ensures
        n == periodic_in(*t, t.order@.len() as int),
{
    broadcast use vstd::std_specs::hash::group_hash_axioms;

    let mut n: u64 = 0;
    for i in 0..t.order.len()
        invariant
            n == periodic_in(*t, i as int),
            n <= i,
    {
        let id: u32 = t.order[i];
        let periodic: bool = match t.messages.get(&id) {
            Some(m) => match m.cycle_us {
                Some(d) => d > 0,
                None => false,
            },
            None => false,
        };
        if periodic {
            n = n + 1;
        }
    }
    n
}

fn count_all_periodic(channels: &Vec<Channel>) -> (n: u64)
    ensures
        n == periodic_messages(channels@, channels@.len() as int),
{
    let mut n: u64 = 0;
    for i in 0..channels.len()
        invariant
            n == periodic_messages(channels@, i as int),
    {
        match &channels[i].dbc {
            Some(t) => {
                let more: u64 = count_periodic(t);
                n = if n > u64::MAX - more {
                    u64::MAX
                } else {
                    n + more
                };
            },
            None => {},
        }
    }
    n
}

fn name_in_report(channels: &Vec<Channel>, ch: u8, id: u32) -> (s: String)
    ensures
        s@ == report_name(channels@, ch, id),
{
    broadcast use vstd::std_specs::hash::group_hash_axioms;

    match channel::channel_dbc(channels, ch) {
        Some(t) => match t.messages.get(&id) {
            Some(m) => m.name.clone(),
            None => "not in database".to_owned(),
        },
        None => "not in database".to_owned(),
    }
}

fn push_verdict(out: &mut String, channels: &Vec<Channel>, key: u64, l: &Latch, t: &VerdictTexts)
    ensures
        final(out)@ == old(out)@ + verdict_line(channels@, key, *l, *t),
{
    #[verifier::truncate]
    let ch: u8 = (key / BUS_UNIT) as u8;
    #[verifier::truncate]
    let id: u32 = ((key % BUS_UNIT) / 8) as u32;
    let mut hex: String = String::new();
    text::push_hex(&mut hex, id as u64, 1);
    let mut fields: Vec<String> = Vec::new();
    fields.push(channel_name(channels, ch));
    fields.push(hex);
    fields.push(name_in_report(channels, ch, id));
    fields.push(Kind::from_number(key % 4).label().to_owned());
    fields.push(t.declared.clone());
    fields.push(t.measured.clone());
    fields.push(decimal_text(l.count));
    fields.push(t.first_s.clone());
    fields.push(t.last_s.clone());
    assert(hex@ =~= text::hex_padded(id as nat, 1));
    assert(text::views(fields@) =~= seq![
        channel::bus_name(channels@, ch),
        text::hex_padded(id as nat, 1),
        report_name(channels@, ch, id),
        Kind::of_code((key % 4) as u64).label_spec(),
        t.declared@,
        t.measured@,
        text::decimal(l.count as int),
        t.first_s@,
        t.last_s@,
    ]);
    push_line(out, &fields);
}

fn push_database(out: &mut String, c: &Channel)
    ensures
        final(out)@ == old(out)@ + database_line(*c),
{
    let mut fields: Vec<String> = Vec::new();
    fields.push("# database".to_owned());
    fields.push(c.name.clone());
    let none: bool = c.dbc_paths.len() == 0 || text::trim_chars(
        c.dbc_paths[0].as_str(),
    ).len() == 0;
    let ghost path = if c.dbc_paths@.len() > 0 {
        c.dbc_paths@[0]@
    } else {
        Seq::empty()
    };
    let shown: String = if none {
        "(none)".to_owned()
    } else {
        c.dbc_paths[0].clone()
    };
    let ghost last = shown@;
    fields.push(shown);
    assert(none == (text::trimmed(path).len() == 0));
    assert(text::views(fields@) =~= seq!["# database"@, c.name@, last]);
    push_line(out, &fields);
}

/// Lower case, with an underscore for every space, and the ending of a report.
pub open spec fn file_name(name: Seq<char>) -> Seq<char> {
    text::lower_text(name).map_values(
        |c: char|
            if c == ' ' {
                '_'
            } else {
                c
            },
    ) + ".csv"@
}

/// The file name that a window's report is offered under.
pub fn report_file_name(name: &str) -> (s: String)
    ensures
        s@ == file_name(name@),
{
    let low: String = text::lowercase(name);
    let chars: Vec<char> = text::chars_of(low.as_str());
    let mut out: Vec<char> = Vec::new();
    let ghost f = |c: char|
        if c == ' ' {
            '_'
        } else {
            c
        };
    for i in 0..chars.len()
        invariant
            out@ == chars@.subrange(0, i as int).map_values(f),
            f == (|c: char|
                if c == ' ' {
                    '_'
                } else {
                    c
                }),
    {
        let c: char = chars[i];
        out.push(
            if c == ' ' {
                '_'
            } else {
                c
            },
        );
        assert(out@ =~= chars@.subrange(0, i + 1).map_values(f));
    }
    assert(chars@.subrange(0, chars@.len() as int) =~= chars@);
    let mut s: String = text::string_of(out.as_slice());
    s.append(".csv");
    s
}

impl App {
    /// The frames of the trace that a window shows, oldest first.
    pub open spec fn exported_frames(self, win: int) -> Seq<CanFrame> {
        shown_frames(
            self.core.channels@,
            self.trace_windows@[win],
            self.core.trace@,
            self.core.trace@.len() as int,
        )
    }

    /// The status after an export was asked for that has nothing to write.
    pub open spec fn trace_export_status(self, win: int) -> Seq<char> {
        if self.core.trace@.len() == 0 {
            "export: trace is empty"@
        } else if win < self.trace_windows@.len() && self.exported_frames(win).len() == 0 {
            "export: no frames pass the trace filter"@
        } else {
            self.status@
        }
    }

    /// The frames to write for a trace window. Where there are none, the status says
    /// why; a window that is not there has nothing to say.
    pub fn export_trace(&mut self, win: usize) -> (r: Option<Vec<CanFrame>>)
        requires
            old(self).wf(),
        ensures
            final(self).wf(),
            r is Some == (old(self).core.trace@.len() > 0 && win < old(self).trace_windows@.len()
                && old(self).exported_frames(win as int).len() > 0),
            r matches Some(f) ==> f@ == old(self).exported_frames(win as int),
            final(self).status@ == old(self).trace_export_status(win as int),
            *final(self) == (App { status: final(self).status, ..*old(self) }),
    {
        if self.core.trace.len() == 0 {
            self.status = "export: trace is empty".to_owned();
            return None;
        }
        if win >= self.trace_windows.len() {
            return None;
        }
        let mut frames: Vec<CanFrame> = Vec::new();
        let w: &TraceWin = &self.trace_windows[win];
        for i in 0..self.core.trace.frames.len()
            invariant
                frames@ == shown_frames(
                    self.core.channels@,
                    *w,
                    self.core.trace@,
                    i as int,
                ),
        {
            let f: CanFrame = self.core.trace.frames[i];
            if trace_match(&self.core.channels, w, &f) {
                frames.push(f);
            }
        }
        if frames.len() == 0 {
            self.status = "export: no frames pass the trace filter".to_owned();
            return None;
        }
        Some(frames)
    }

    /// Tells how writing the frames of a trace window ended.
    pub fn finish_trace_export(&mut self, written: usize, path: &str, outcome: Result<(), String>)
        requires
            old(self).wf(),
        ensures
            final(self).wf(),
            final(self).status@ == (match outcome {
                Ok(_) => "exported "@ + text::decimal(written as int) + " of "@ + text::decimal(
                    old(self).core.trace@.len() as int,
                ) + " frames to "@ + path@,
                Err(e) => "export failed: "@ + e@,
            }),
            *final(self) == (App { status: final(self).status, ..*old(self) }),
    {
        match outcome {
            Ok(_) => {
                let mut s: String = "exported ".to_owned();
                text::push_u64(&mut s, written as u64);
                s.append(" of ");
                text::push_u64(&mut s, self.core.trace.len() as u64);
                s.append(" frames to ");
                s.append(path);
                self.status = s;
            },
            Err(e) => {
                let mut s: String = "export failed: ".to_owned();
                s.append(e.as_str());
                self.status = s;
            },
        }
    }

    /// Tells how writing a report ended.
    pub fn write_export(&mut self, path: &str, outcome: Result<(), String>)
        requires
            old(self).wf(),
        ensures
            final(self).wf(),
            final(self).status@ == (match outcome {
                Ok(_) => "exported to "@ + path@,
                Err(e) => "export failed: "@ + e@,
            }),
            *final(self) == (App { status: final(self).status, ..*old(self) }),
    {
        match outcome {
            Ok(_) => {
                let mut s: String = "exported to ".to_owned();
                s.append(path);
                self.status = s;
            },
            Err(e) => {
                let mut s: String = "export failed: ".to_owned();
                s.append(e.as_str());
                self.status = s;
            },
        }
    }

    /// The report of a statistics window; nothing for a window that is not there.
    pub fn export_stats_csv(&self, win: usize, texts: &Vec<CycleTexts>) -> (r: Option<String>)
        requires
            win < self.stats_windows@.len() ==> texts@.len() == self.stats_rows_spec(
                win as int,
            ).len(),
        ensures
            r is Some == (win < self.stats_windows@.len()),
            r matches Some(s) ==> s@ == stats_report(
                self.core.channels@,
                self.stats_rows_spec(win as int),
                texts@,
                texts@.len() as int,
            ),
    {
        if win >= self.stats_windows.len() {
            return None;
        }
        let rows: Vec<MessageAgg> = self.visible_stats(win);
        let mut s: String = "bus,id,name,count,cycle_min_ms,cycle_avg_ms,cycle_max_ms,len,flags\n".to_owned();
        for i in 0..rows.len()
            invariant
                rows@.len() == texts@.len(),
                s@ == stats_report(self.core.channels@, rows@, texts@, i as int),
        {
            let a: &MessageAgg = &rows[i];
            let t: &CycleTexts = &texts[i];
            let mut fields: Vec<String> = Vec::new();
            fields.push(channel_name(&self.core.channels, a.channel));
            fields.push(decimal_text(a.id as u64));
            fields.push(name_of_message(&self.core.channels, a.channel, a.id));
            fields.push(decimal_text(a.count));
            fields.push(interval(a, &t.min));
            fields.push(interval(a, &t.avg));
            fields.push(interval(a, &t.max));
            fields.push(decimal_text(a.len as u64));
            fields.push(a.flags.tag().to_owned());
            assert(text::views(fields@) =~= seq![
                channel::bus_name(self.core.channels@, a.channel),
                text::decimal(a.id as int),
                app_text::shown_name(self.core.channels@, a.channel, a.id),
                text::decimal(a.count as int),
                interval_text(*a, t.min@),
                interval_text(*a, t.avg@),
                interval_text(*a, t.max@),
                text::decimal(a.len as int),
                a.flags.tag_spec(),
            ]);
            push_line(&mut s, &fields);
        }
        Some(s)
    }

    /// The report of a messages window, over the rows that it shows; nothing for a window
    /// that is not there.
    pub fn export_messages_csv(&self, win: usize, cycles: &Vec<String>) -> (r: Option<String>)
        requires
            self.core.wf(),
            win < self.msg_windows@.len() ==> cycles@.len() == self.msg_rows_spec(
                win as int,
            ).len(),
        ensures
            r is Some == (win < self.msg_windows@.len()),
            r matches Some(s) ==> s@ == message_report(
                self.core.channels@,
                self.msg_rows_spec(win as int),
                cycles@,
                cycles@.len() as int,
            ),
    {
        if win >= self.msg_windows.len() {
            return None;
        }
        let rows: Vec<MessageAgg> = self.visible_messages(win);
        let mut s: String = "bus,id,name,dir,count,cycle_ms,len,flags,data\n".to_owned();
        for i in 0..rows.len()
            invariant
                rows@.len() == cycles@.len(),
                forall|k: int| 0 <= k < rows@.len() ==> (#[trigger] rows@[k]).wf(),
                s@ == message_report(self.core.channels@, rows@, cycles@, i as int),
        {
            let a: &MessageAgg = &rows[i];
            assert(rows@[i as int].wf());
            let mut fields: Vec<String> = Vec::new();
            fields.push(channel_name(&self.core.channels, a.channel));
            fields.push(decimal_text(a.id as u64));
            fields.push(name_of_message(&self.core.channels, a.channel, a.id));
            fields.push(direction_text(a.dir));
            fields.push(decimal_text(a.count));
            fields.push(interval(a, &cycles[i]));
            fields.push(decimal_text(a.len as u64));
            fields.push(a.flags.tag().to_owned());
            fields.push(bytes_text(a.payload()));
            assert(text::views(fields@) =~= seq![
                channel::bus_name(self.core.channels@, a.channel),
                text::decimal(a.id as int),
                app_text::shown_name(self.core.channels@, a.channel, a.id),
                app_text::dir_text(a.dir),
                text::decimal(a.count as int),
                interval_text(*a, cycles@[i as int]@),
                text::decimal(a.len as int),
                a.flags.tag_spec(),
                payload_text(a.payload_spec()),
            ]);
            push_line(&mut s, &fields);
        }
        Some(s)
    }

    /// Where the subscriptions to a window's visible signals stand, in their order.
    pub fn visible_subs(&self, signals: &Vec<GfxSignal>) -> (r: Vec<usize>)
        ensures
            r@ == visible_subs_spec(signals@, self.core.obs@.subs, signals@.len() as int),
            forall|i: int| 0 <= i < r@.len() ==> #[trigger] r@[i] < self.core.obs.subs@.len(),
    {
        let mut r: Vec<usize> = Vec::new();
        for i in 0..signals.len()
            invariant
                r@ == visible_subs_spec(signals@, self.core.obs@.subs, i as int),
                forall|k: int| 0 <= k < r@.len() ==> #[trigger] r@[k] < self.core.obs.subs@.len(),
        {
            if signals[i].visible {
                match self.core.obs.find(&signals[i].key()) {
                    Some(k) => {
                        r.push(k);
                    },
                    None => {},
                }
            }
        }
        r
    }

    /// The subscriptions of the visible signals of a plot window.
    pub open spec fn plotted(self, i: int) -> Seq<usize> {
        let s = self.graphics@[i].signals@;
        visible_subs_spec(s, self.core.obs@.subs, s.len() as int)
    }

    /// The subscriptions of the visible signals of a data window.
    pub open spec fn listed_values(self, i: int) -> Seq<usize> {
        let s = self.data_windows@[i].signals@;
        visible_subs_spec(s, self.core.obs@.subs, s.len() as int)
    }

    /// One text per sample of every plotted signal.
    pub open spec fn has_sample_texts(self, i: int, values: Seq<Vec<String>>) -> bool {
        let shown = self.plotted(i);
        &&& values.len() == shown.len()
        &&& forall|k: int|
            0 <= k < shown.len() ==> (#[trigger] values[k])@.len()
                == self.core.obs@.subs[shown[k] as int].history.len()
    }

    /// The report of a plot window's history, one line per sample; where there is none
    /// yet, the status says so.
    pub fn export_graphics_csv(&mut self, i: usize, values: &Vec<Vec<String>>) -> (r: Option<
        String,
    >)
        requires
            old(self).wf(),
            i < old(self).graphics@.len() ==> old(self).has_sample_texts(i as int, values@),
        ensures
            final(self).wf(),
            r is Some == (i < old(self).graphics@.len() && !no_history(
                old(self).core.obs@.subs,
                old(self).plotted(i as int),
                old(self).plotted(i as int).len() as int,
            )),
            r matches Some(s) ==> s@ == history_report(
                old(self).core.channels@,
                old(self).core.obs@.subs,
                old(self).plotted(i as int),
                values@,
                values@.len() as int,
            ),
            final(self).status@ == (if i < old(self).graphics@.len() && r is None {
                "export: no signal history yet"@
            } else {
                old(self).status@
            }),
            *final(self) == (App { status: final(self).status, ..*old(self) }),
    {
        if i >= self.graphics.len() {
            return None;
        }
        let shown: Vec<usize> = self.visible_subs(&self.graphics[i].signals);
        let ghost subs = self.core.obs@.subs;
        let ghost channels = self.core.channels@;
        let mut s: String = "time_us,bus,signal,value\n".to_owned();
        let mut any: bool = false;
        for k in 0..shown.len()
            invariant
                subs == self.core.obs@.subs,
                channels == self.core.channels@,
                shown@ == self.plotted(i as int),
                self.has_sample_texts(i as int, values@),
                forall|j: int|
                    0 <= j < shown@.len() ==> #[trigger] shown@[j] < self.core.obs.subs@.len(),
                s@ == history_report(channels, subs, shown@, values@, k as int),
                any == !no_history(subs, shown@, k as int),
        {
            assert(shown@[k as int] < self.core.obs.subs@.len());
            let sub: &Subscription<Reading> = &self.core.obs.subs[shown[k]];
            assert(subs[shown@[k as int] as int] == observers::sub_state(*sub));
            let ghost st = observers::sub_state(*sub);
            let texts: &Vec<String> = &values[k];
            assert(values@[k as int]@.len() == st.history.len());
            let samples: &[(u64, Reading)] = sub.history.as_slice();
            let ghost head = s@;
            for j in 0..samples.len()
                invariant
                    channels == self.core.channels@,
                    st == observers::sub_state(*sub),
                    samples@ == st.history,
                    texts@.len() == st.history.len(),
                    s@ == head + history_lines(channels, st, texts@, j as int),
            {
                let mut fields: Vec<String> = Vec::new();
                fields.push(decimal_text(samples[j].0));
                fields.push(channel_name(&self.core.channels, sub.key.ch));
                fields.push(sub.key.signal.clone());
                fields.push(texts[j].clone());
                assert(text::views(fields@) =~= seq![
                    text::decimal(st.history[j as int].0 as int),
                    channel::bus_name(channels, st.key.ch),
                    st.key.signal,
                    texts@[j as int]@,
                ]);
                push_line(&mut s, &fields);
                assert(s@ =~= head + history_lines(channels, st, texts@, j + 1));
            }
            if samples.len() > 0 {
                any = true;
                assert(subs[shown@[k as int] as int].history.len() > 0);
            } else {
                assert(no_history(subs, shown@, k + 1) == no_history(subs, shown@, k as int));
            }
        }
        if !any {
            self.status = "export: no signal history yet".to_owned();
            return None;
        }
        Some(s)
    }

    /// The report of a data window's latest values: each line carries the number and,
    /// where the database names the value, its label. Nothing for a window that is not
    /// there.
    pub fn export_data_csv(&self, i: usize, values: &Vec<String>) -> (r: Option<String>)
        requires
            i < self.data_windows@.len() ==> values@.len() == self.listed_values(i as int).len(),
        ensures
            r is Some == (i < self.data_windows@.len()),
            r matches Some(s) ==> s@ == value_report(
                self.core.channels@,
                self.core.obs@.subs,
                self.listed_values(i as int),
                values@,
                values@.len() as int,
            ),
    {
        if i >= self.data_windows.len() {
            return None;
        }
        let shown: Vec<usize> = self.visible_subs(&self.data_windows[i].signals);
        let ghost subs = self.core.obs@.subs;
        let ghost channels = self.core.channels@;
        let mut s: String = "bus,signal,value,unit,type,label\n".to_owned();
        for k in 0..shown.len()
            invariant
                subs == self.core.obs@.subs,
                channels == self.core.channels@,
                shown@.len() == values@.len(),
                forall|j: int|
                    0 <= j < shown@.len() ==> #[trigger] shown@[j] < self.core.obs.subs@.len(),
                s@ == value_report(channels, subs, shown@, values@, k as int),
        {
            assert(shown@[k as int] < self.core.obs.subs@.len());
            let sub: &Subscription<Reading> = &self.core.obs.subs[shown[k]];
            let ghost st = observers::sub_state(*sub);
            assert(subs[shown@[k as int] as int] == st);
            let label: String = match &sub.label {
                Some(l) => l.clone(),
                None => String::new(),
            };
            let ghost shown_label = label@;
            let mut fields: Vec<String> = Vec::new();
            fields.push(channel_name(&self.core.channels, sub.key.ch));
            fields.push(sub.key.signal.clone());
            fields.push(values[k].clone());
            fields.push(sub.unit.clone());
            fields.push(sub.type_tag.clone());
            fields.push(label);
            proof {
                reveal_strlit("");
                assert(shown_label =~= (match st.label {
                    Some(l) => l,
                    None => Seq::empty(),
                }));
                assert(text::views(fields@) =~= seq![
                    channel::bus_name(channels, st.key.ch),
                    st.key.signal,
                    values@[k as int]@,
                    st.unit,
                    st.type_tag,
                    match st.label {
                        Some(l) => l,
                        None => Seq::empty(),
                    },
                ]);
                assert(csv_line(text::views(fields@)) == value_line(
                    channels,
                    st,
                    values@[k as int]@,
                ));
            }
            push_line(&mut s, &fields);
        }
        Some(s)
    }

    /// The whole specification report, every latched verdict, with the premises that it
    /// was judged under: without those a report cannot be checked again.
    pub fn export_spec_csv(&self, texts: &Vec<VerdictTexts>) -> (s: String)
        requires
            texts@.len() == self.core.monitor.rows.items@.len(),
        ensures
            s@ == premises(*self) + verdict_lines(
                self.core.channels@,
                self.core.monitor.rows.items@,
                texts@,
                texts@.len() as int,
            ),
    {
        let mut s: String = String::new();
        proof {
            reveal_strlit("");
        }
        let channels: &Vec<Channel> = &self.core.channels;
        for i in 0..channels.len()
            invariant
                s@ == database_lines(channels@, i as int),
        {
            push_database(&mut s, &channels[i]);
        }
        s.append("# tolerance,+/-");
        text::push_u64(&mut s, self.spec_tol_pct);
        s.append("%\n# grace,");
        text::push_u64(&mut s, self.spec_grace);
        s.append("x declared period\n# periodic messages declared,");
        text::push_u64(&mut s, count_all_periodic(channels));
        s.append("\nbus,id,name,rule,declared,measured,count,first_s,last_s\n");
        assert(s@ =~= premises(*self));
        let ghost head = s@;
        for i in 0..texts.len()
            invariant
                channels@ == self.core.channels@,
                texts@.len() == self.core.monitor.rows.items@.len(),
                s@ == head + verdict_lines(
                    channels@,
                    self.core.monitor.rows.items@,
                    texts@,
                    i as int,
                ),
        {
            let row: &(u64, Latch) = &self.core.monitor.rows.items[i];
            push_verdict(&mut s, channels, row.0, &row.1, &texts[i]);
            assert(s@ =~= head + verdict_lines(
                channels@,
                self.core.monitor.rows.items@,
                texts@,
                i + 1,
            ));
        }
        s
    }
}

/// An export holds frames of the trace alone, in the trace's order, and only such as the
/// window shows.
pub proof fn law_exports_hold_what_is_shown(
    channels: Seq<Channel>,
    w: TraceWin,
    frames: Seq<CanFrame>,
    n: int,
)
    requires
        0 <= n <= frames.len(),
    ensures
        shown_frames(channels, w, frames, n).len() <= n,
        forall|i: int|
            0 <= i < shown_frames(channels, w, frames, n).len() ==> app_text::shows_frame(
                channels,
                w,
                #[trigger] shown_frames(channels, w, frames, n)[i],
            ),
        (forall|i: int| 0 <= i < n ==> app_text::shows_frame(channels, w, #[trigger] frames[i]))
            ==> shown_frames(channels, w, frames, n) == frames.subrange(0, n),
    decreases n,
{
    if n > 0 {
        law_exports_hold_what_is_shown(channels, w, frames, n - 1);
        if forall|i: int|
            0 <= i < n ==> app_text::shows_frame(channels, w, #[trigger] frames[i]) {
            assert(app_text::shows_frame(channels, w, frames[n - 1]));
            assert(frames.subrange(0, n) =~= frames.subrange(0, n - 1).push(frames[n - 1]));
        }
    } else {
        assert(frames.subrange(0, n) =~= Seq::<CanFrame>::empty());
    }
}

} // verus!
