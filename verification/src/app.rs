//! The workspace around the bus.

use vstd::prelude::*;
use vstd::string::*;
use crate::bus::{BusCore, BusLoad};
use crate::bus_command::BusCommand;
use crate::bus_reload;
use crate::bus_reload::BusFiles;
use crate::bus_run::{BusAction, OpenedLog};
use crate::can::frame::FrameFlags;
use crate::channel;
use crate::channel::Channel;
use crate::dbc_merge::FileText;
use crate::monitor::{GRACE_CYCLES, TOLERANCE_PERCENT};
use crate::text;
use crate::workspace;
use crate::workspace::{
    DataWindow, Desktop, GraphicsWindow, MsgWin, Panels, SigScope, StatsWin, TraceWin,
    WindowKind,
};

verus! {

/// One row of a statistics window as text, ready to draw.
pub struct StatsRowText {
    pub label: String,
    pub bus: String,
    pub count: String,
    pub min: String,
    pub avg: String,
    pub max: String,
    pub len: String,
    pub flags: FrameFlags,
    pub share: String,
}

/// One row of a messages window as text; the expanded tree draws the decoded
/// signals' names and values.
pub struct MsgRowText {
    pub label: String,
    pub bus: String,
    pub dir: String,
    pub count: String,
    pub cycle: String,
    pub flags: FrameFlags,
    pub data: String,
    pub signals: Vec<(String, String)>,
}

/// Which timeline the bus runs on.
#[derive(Clone, Copy, PartialEq, Eq, Debug, Structural)]
pub enum Mode {
    /// Generated traffic against the simulated clock.
    Virtual,
    /// A loaded log at its own stamps.
    Replay,
}

/// The replay speeds of the transport's ladder, as the bit patterns of their
/// doubles: a half, one, two and four.
pub open spec fn speed_at(i: int) -> u64 {
    if i <= 0 {
        0x3FE0_0000_0000_0000
    } else if i == 1 {
        0x3FF0_0000_0000_0000
    } else if i == 2 {
        0x4000_0000_0000_0000
    } else {
        0x4010_0000_0000_0000
    }
}

fn ladder_speed(i: usize) -> (r: u64)
    ensures
        r == speed_at(i as int),
{
    match i {
        0 => 0x3FE0_0000_0000_0000,
        1 => 0x3FF0_0000_0000_0000,
        2 => 0x4000_0000_0000_0000,
        _ => 0x4010_0000_0000_0000,
    }
}

/// The rung of a speed: the one less than a billionth away, or that of the single
/// speed. The bounds are the bit patterns of the outermost doubles that lie so near.
pub open spec fn rung_of(bits: u64) -> int {
    if 0x3FDF_FFFF_FEED_1F42 <= bits <= 0x3FE0_0000_0089_705F {
        0
    } else if 0x3FFF_FFFF_FFBB_47D1 <= bits <= 0x4000_0000_0022_5C17 {
        2
    } else if 0x400F_FFFF_FFDD_A3E9 <= bits <= 0x4010_0000_0011_2E0B {
        3
    } else {
        1
    }
}

fn find_rung(bits: u64) -> (r: usize)
    ensures
        r == rung_of(bits),
{
    if 0x3FDF_FFFF_FEED_1F42 <= bits && bits <= 0x3FE0_0000_0089_705F {
        0
    } else if 0x3FFF_FFFF_FFBB_47D1 <= bits && bits <= 0x4000_0000_0022_5C17 {
        2
    } else if 0x400F_FFFF_FFDD_A3E9 <= bits && bits <= 0x4010_0000_0011_2E0B {
        3
    } else {
        1
    }
}

/// The speed `delta` rungs further; the ends hold.
pub open spec fn stepped_speed(bits: u64, delta: int) -> u64 {
    let i = rung_of(bits) + delta;
    speed_at(
        if i < 0 {
            0
        } else if i > 3 {
            3
        } else {
            i
        },
    )
}

/// How many files each recent list remembers.
pub const RECENT_CAP: usize = 8;

/// The list without a path.
pub open spec fn without_path(list: Seq<Seq<char>>, path: Seq<char>, n: int) -> Seq<Seq<char>>
    decreases n,
{
    if n <= 0 {
        Seq::empty()
    } else {
        let before = without_path(list, path, n - 1);
        if list[n - 1] == path {
            before
        } else {
            before.push(list[n - 1])
        }
    }
}

/// The recent list after a file was opened: newest first, each once, the oldest
/// leaving past the cap.
pub open spec fn with_recent(list: Seq<Seq<char>>, path: Seq<char>) -> Seq<Seq<char>> {
    let all = seq![path] + without_path(list, path, list.len() as int);
    if all.len() > RECENT_CAP {
        all.subrange(0, RECENT_CAP as int)
    } else {
        all
    }
}

pub fn push_recent(list: &mut Vec<String>, path: String)
    ensures
        text::views(final(list)@) == with_recent(text::views(old(list)@), path@),
{
    let mut all: Vec<String> = Vec::new();
    std::mem::swap(&mut all, list);
    let ghost before = all@;
    let ghost rest = without_path(text::views(before), path@, before.len() as int);
    let mut kept: Vec<String> = Vec::new();
    let first: String = path.clone();
    kept.push(first);
    assert(text::views(kept@) =~= seq![path@]);
    assert(without_path(text::views(before), path@, 0) =~= Seq::empty());
    assert(seq![path@] + Seq::<Seq<char>>::empty() =~= seq![path@]);
    for s in it: all
        invariant
            it.seq() == before,
            text::views(kept@) == seq![path@] + without_path(
                text::views(before),
                path@,
                it.index() as int,
            ),
    {
        assert(s == before[it.index() as int]);
        assert(text::views(before)[it.index() as int] == s@);
        if !text::same_text(s.as_str(), path.as_str()) {
            let ghost held = kept@;
            let ghost part = without_path(text::views(before), path@, it.index() as int);
            kept.push(s);
            assert(text::views(kept@) =~= text::views(held).push(s@));
            assert(seq![path@] + part.push(s@) =~= (seq![path@] + part).push(s@));
        }
    }
    let ghost whole = kept@;
    if kept.len() > RECENT_CAP {
        kept.truncate(RECENT_CAP);
        assert(text::views(kept@) =~= text::views(whole).subrange(0, RECENT_CAP as int));
    }
    *list = kept;
}

/// A desktop's name.
pub open spec fn numbered(head: Seq<char>, n: int) -> Seq<char> {
    head + text::decimal(n)
}

pub fn number_name(head: &str, n: u64) -> (s: String)
    ensures
        s@ == numbered(head@, n as int),
{
    let mut s: String = head.to_owned();
    text::push_u64(&mut s, n);
    s
}

/// How many windows of each kind were made.
#[derive(Clone, Copy, Debug, PartialEq, Eq, Structural)]
pub struct Counters {
    pub trace: usize,
    pub msg: usize,
    pub stats: usize,
    pub graphics: usize,
    pub data: usize,
}

/// The workspace: the bus and everything the user arranged around it. Numbers that
/// are no integers are kept as the bit patterns of their doubles.
pub struct App {
    pub core: BusCore,
    pub status: String,
    /// The log selected for replay.
    pub log_path: String,
    /// A summary of that log.
    pub log_info: Option<String>,
    pub recent_dbc: Vec<String>,
    pub recent_log: Vec<String>,
    /// The layout text of the windows as they stand.
    pub layout_cache: String,
    /// A layout that is to be applied before the next frame.
    pub pending_layout: Option<String>,
    /// Named arrangements; there is always at least one.
    pub desktops: Vec<Desktop>,
    pub active_desktop: usize,
    pub replay_speed: u64,
    /// The next Play opens the log from the start instead of resuming it.
    pub replay_reset_pending: bool,
    pub trigger_sel: Option<usize>,
    pub trig_edit_sel: Option<usize>,
    /// How far an observed period may stray from the declared one, in percent.
    pub spec_tol_pct: u64,
    /// How many declared periods of silence count as a dropped message.
    pub spec_grace: u64,
    pub panels: Panels,
    /// How often throttled readouts change, in Hz; 0 follows the frame rate.
    pub text_rate_hz: u32,
    /// Throttled readouts change in this frame.
    pub text_fresh: bool,
    pub status_counters: String,
    pub net_selected: usize,
    pub trace_windows: Vec<TraceWin>,
    pub msg_windows: Vec<MsgWin>,
    pub stats_windows: Vec<StatsWin>,
    pub graphics: Vec<GraphicsWindow>,
    pub data_windows: Vec<DataWindow>,
    pub counters: Counters,
}

/// A bus of the sample workspace.
pub open spec fn is_sample_channel(c: Channel, name: Seq<char>, path: Seq<char>) -> bool {
    &&& c.name@ == name
    &&& c.dbc is None
    &&& text::views(c.dbc_paths@) == seq![path]
    &&& c.dbc_sums@.len() == 0
    &&& c.node_roles@.len() == 0
    &&& c.bitrate_kbps == channel::DEFAULT_BITRATE_KBPS
    &&& c.fd_data_kbps == channel::DEFAULT_FD_DATA_KBPS
}

fn sample_channel(name: &str, path: &str) -> (c: Channel)
    ensures
        is_sample_channel(c, name@, path@),
        c.wf(),
{
    let mut paths: Vec<String> = Vec::new();
    paths.push(path.to_owned());
    assert(text::views(paths@) =~= seq![path@]);
    Channel {
        name: name.to_owned(),
        dbc: None,
        dbc_paths: paths,
        dbc_sums: Vec::new(),
        node_roles: Vec::new(),
        bitrate_kbps: channel::DEFAULT_BITRATE_KBPS,
        fd_data_kbps: channel::DEFAULT_FD_DATA_KBPS,
    }
}

/// The bus before its databases are loaded: a blank core with the two sample buses.
pub open spec fn is_sample_core(core: BusCore) -> bool {
    exists|blank: BusCore|
        {
            &&& #[trigger] blank.is_blank(blank.bus_loads)
            &&& blank.bus_loads@.len() == 2
            &&& core == (BusCore { channels: core.channels, ..blank })
            &&& core.channels@.len() == 2
            &&& is_sample_channel(core.channels@[0], "CAN1"@, "assets/sample.dbc"@)
            &&& is_sample_channel(core.channels@[1], "CAN2"@, "assets/motbus.dbc"@)
        }
}

/// The bus of a new workspace: both databases loaded, and an entry for every message
/// that they declare.
pub open spec fn is_started_core(core: BusCore, files: Seq<Vec<Result<FileText, String>>>) -> bool {
    exists|start: BusCore, loaded: BusCore, line: Option<Seq<char>>|
        {
            &&& #[trigger] bus_reload::are_loaded(
                start,
                loaded,
                bus_reload::first_buses(2),
                files,
                line,
            )
            &&& is_sample_core(start)
            &&& loaded.is_populated(core)
        }
}

/// An untouched trace window.
pub open spec fn is_new_trace(w: TraceWin, n: int) -> bool {
    &&& w.name@ == numbered("Trace "@, n)
    &&& w.opened
    &&& w.scope == SigScope::All
    &&& w.manual@.len() == 0
    &&& w.filter@.len() == 0
    &&& w.dir == 0
    &&& !w.dbc_only
    &&& w.shown_t_us == u64::MAX
    &&& w.shown_count == 0
}

/// An untouched messages window.
pub open spec fn is_new_msg(w: MsgWin, n: int) -> bool {
    &&& w.name@ == numbered("Messages "@, n)
    &&& w.opened
    &&& w.scope == SigScope::All
    &&& w.manual@.len() == 0
    &&& w.filter@.len() == 0
    &&& !w.dbc_only
    &&& w.text_keys@.len() == 0
    &&& w.text_rows@.len() == 0
    &&& w.text_header@.len() == 0
}

/// An untouched statistics window.
pub open spec fn is_new_stats(w: StatsWin, n: int) -> bool {
    &&& w.name@ == numbered("Statistics "@, n)
    &&& w.opened
    &&& w.scope == SigScope::All
    &&& w.manual@.len() == 0
    &&& w.text_keys@.len() == 0
    &&& w.text_rows@.len() == 0
    &&& w.text_header@.len() == 0
}

/// The default span of a plot window: sixty seconds.
pub const DEFAULT_TIME_WINDOW: u64 = 0x404E_0000_0000_0000;

/// The single replay speed.
pub const SINGLE_SPEED: u64 = 0x3FF0_0000_0000_0000;

/// An untouched plot window.
pub open spec fn is_new_graphics(w: GraphicsWindow, n: int) -> bool {
    &&& w.name@ == numbered("Graphics "@, n)
    &&& w.signals@.len() == 0
    &&& w.time_window_s == DEFAULT_TIME_WINDOW
    &&& !w.stacked
    &&& w.opened
    &&& w.t_offset_s == 0
    &&& !w.show_cursor
    &&& w.zoom_enabled
    &&& w.show_markers
}

/// An untouched data window.
pub open spec fn is_new_data(w: DataWindow, n: int) -> bool {
    &&& w.name@ == numbered("Data "@, n)
    &&& w.signals@.len() == 0
    &&& w.opened
}

/// The open windows of one kind among the first `n` of a list of names.
pub open spec fn open_of(
    kind: WindowKind,
    windows: Seq<(bool, String)>,
    n: int,
) -> Seq<(WindowKind, String)>
    decreases n,
{
    if n <= 0 {
        Seq::empty()
    } else {
        let before = open_of(kind, windows, n - 1);
        if windows[n - 1].0 {
            before.push((kind, windows[n - 1].1))
        } else {
            before
        }
    }
}

/// The windows of a workspace with whether they are open, by kind.
pub open spec fn trace_names(w: Seq<TraceWin>) -> Seq<(bool, String)> {
    Seq::new(w.len(), |i: int| (w[i].opened, w[i].name))
}

pub open spec fn msg_names(w: Seq<MsgWin>) -> Seq<(bool, String)> {
    Seq::new(w.len(), |i: int| (w[i].opened, w[i].name))
}

pub open spec fn stats_names(w: Seq<StatsWin>) -> Seq<(bool, String)> {
    Seq::new(w.len(), |i: int| (w[i].opened, w[i].name))
}

pub open spec fn graphics_names(w: Seq<GraphicsWindow>) -> Seq<(bool, String)> {
    Seq::new(w.len(), |i: int| (w[i].opened, w[i].name))
}

pub open spec fn data_names(w: Seq<DataWindow>) -> Seq<(bool, String)> {
    Seq::new(w.len(), |i: int| (w[i].opened, w[i].name))
}

/// The transport's next move when the user asks to run.
pub enum Start {
    /// Run the simulated bus.
    Virtual,
    /// Ask for a log first.
    PickLog,
    /// Replay this log.
    Replay(String),
}

/// What Play does.
pub enum Play {
    /// Freeze or unfreeze the views of a running bus.
    SetPaused(bool),
    /// Resume a scrubbed replay where it stands.
    Resume,
    Start(Start),
}

impl App {
    pub open spec fn wf(self) -> bool {
        &&& self.core.wf()
        &&& self.active_desktop < self.desktops@.len()
        &&& forall|i: int|
            0 <= i < self.trace_windows@.len() ==> workspace::is_set(
                (#[trigger] self.trace_windows@[i]).manual@,
            )
        &&& forall|i: int|
            0 <= i < self.msg_windows@.len() ==> workspace::is_set(
                (#[trigger] self.msg_windows@[i]).manual@,
            )
        &&& forall|i: int|
            0 <= i < self.stats_windows@.len() ==> workspace::is_set(
                (#[trigger] self.stats_windows@[i]).manual@,
            )
    }

    /// Every open window, kind by kind.
    pub open spec fn open_windows_spec(self) -> Seq<(WindowKind, String)> {
        open_of(
            WindowKind::Trace,
            trace_names(self.trace_windows@),
            self.trace_windows@.len() as int,
        ) + open_of(
            WindowKind::Messages,
            msg_names(self.msg_windows@),
            self.msg_windows@.len() as int,
        ) + open_of(
            WindowKind::Statistics,
            stats_names(self.stats_windows@),
            self.stats_windows@.len() as int,
        ) + open_of(
            WindowKind::Graphics,
            graphics_names(self.graphics@),
            self.graphics@.len() as int,
        ) + open_of(
            WindowKind::Data,
            data_names(self.data_windows@),
            self.data_windows@.len() as int,
        )
    }

    /// The arrangement as it stands, without a name.
    pub fn desktop_snapshot(&self) -> (d: Desktop)
        ensures
            d.name@.len() == 0,
            d.layout == self.layout_cache,
            d.open_windows@ == self.open_windows_spec(),
            d.panels == self.panels,
    {
        let mut open: Vec<(WindowKind, String)> = Vec::new();
        let ghost mut done: Seq<(WindowKind, String)> = Seq::empty();
        proof {
            reveal_strlit("");
        }
        for i in 0..self.trace_windows.len()
            invariant
                open@ == done + open_of(
                    WindowKind::Trace,
                    trace_names(self.trace_windows@),
                    i as int,
                ),
        {
            if self.trace_windows[i].opened {
                open.push((WindowKind::Trace, self.trace_windows[i].name.clone()));
            }
            assert(open@ =~= done + open_of(
                WindowKind::Trace,
                trace_names(self.trace_windows@),
                i + 1,
            ));
        }
        proof {
            done = open@;
        }
        assert(open@ =~= done + open_of(WindowKind::Messages, msg_names(self.msg_windows@), 0));
        for i in 0..self.msg_windows.len()
            invariant
                open@ == done + open_of(
                    WindowKind::Messages,
                    msg_names(self.msg_windows@),
                    i as int,
                ),
        {
            if self.msg_windows[i].opened {
                open.push((WindowKind::Messages, self.msg_windows[i].name.clone()));
            }
            assert(open@ =~= done + open_of(
                WindowKind::Messages,
                msg_names(self.msg_windows@),
                i + 1,
            ));
        }
        proof {
            done = open@;
        }
        assert(open@ =~= done + open_of(
            WindowKind::Statistics,
            stats_names(self.stats_windows@),
            0,
        ));
        for i in 0..self.stats_windows.len()
            invariant
                open@ == done + open_of(
                    WindowKind::Statistics,
                    stats_names(self.stats_windows@),
                    i as int,
                ),
        {
            if self.stats_windows[i].opened {
                open.push((WindowKind::Statistics, self.stats_windows[i].name.clone()));
            }
            assert(open@ =~= done + open_of(
                WindowKind::Statistics,
                stats_names(self.stats_windows@),
                i + 1,
            ));
        }
        proof {
            done = open@;
        }
        assert(open@ =~= done + open_of(WindowKind::Graphics, graphics_names(self.graphics@), 0));
        for i in 0..self.graphics.len()
            invariant
                open@ == done + open_of(
                    WindowKind::Graphics,
                    graphics_names(self.graphics@),
                    i as int,
                ),
        {
            if self.graphics[i].opened {
                open.push((WindowKind::Graphics, self.graphics[i].name.clone()));
            }
            assert(open@ =~= done + open_of(
                WindowKind::Graphics,
                graphics_names(self.graphics@),
                i + 1,
            ));
        }
        proof {
            done = open@;
        }
        assert(open@ =~= done + open_of(WindowKind::Data, data_names(self.data_windows@), 0));
        for i in 0..self.data_windows.len()
            invariant
                open@ == done + open_of(WindowKind::Data, data_names(self.data_windows@), i as int),
        {
            if self.data_windows[i].opened {
                open.push((WindowKind::Data, self.data_windows[i].name.clone()));
            }
            assert(open@ =~= done + open_of(WindowKind::Data, data_names(self.data_windows@), i + 1));
        }
        assert(open@ =~= self.open_windows_spec());
        Desktop {
            name: String::new(),
            layout: self.layout_cache.clone(),
            open_windows: open,
            panels: self.panels,
        }
    }

    /// The windows and panels stand as the desktop says; everything else stays.
    pub open spec fn is_arranged(self, after: App, d: Desktop) -> bool {
        &&& after.trace_windows@.len() == self.trace_windows@.len()
        &&& forall|i: int|
            0 <= i < self.trace_windows@.len() ==> #[trigger] after.trace_windows@[i] == (TraceWin {
                opened: d.opens(WindowKind::Trace, self.trace_windows@[i].name@),
                ..self.trace_windows@[i]
            })
        &&& after.msg_windows@.len() == self.msg_windows@.len()
        &&& forall|i: int|
            0 <= i < self.msg_windows@.len() ==> #[trigger] after.msg_windows@[i] == (MsgWin {
                opened: d.opens(WindowKind::Messages, self.msg_windows@[i].name@),
                ..self.msg_windows@[i]
            })
        &&& after.stats_windows@.len() == self.stats_windows@.len()
        &&& forall|i: int|
            0 <= i < self.stats_windows@.len() ==> #[trigger] after.stats_windows@[i] == (StatsWin {
                opened: d.opens(WindowKind::Statistics, self.stats_windows@[i].name@),
                ..self.stats_windows@[i]
            })
        &&& after.graphics@.len() == self.graphics@.len()
        &&& forall|i: int|
            0 <= i < self.graphics@.len() ==> #[trigger] after.graphics@[i] == (GraphicsWindow {
                opened: d.opens(WindowKind::Graphics, self.graphics@[i].name@),
                ..self.graphics@[i]
            })
        &&& after.data_windows@.len() == self.data_windows@.len()
        &&& forall|i: int|
            0 <= i < self.data_windows@.len() ==> #[trigger] after.data_windows@[i] == (DataWindow {
                opened: d.opens(WindowKind::Data, self.data_windows@[i].name@),
                ..self.data_windows@[i]
            })
        &&& after.panels == d.panels
        &&& after.pending_layout is Some
        &&& (after.pending_layout->0)@ == d.layout@
        &&& after == (App {
            trace_windows: after.trace_windows,
            msg_windows: after.msg_windows,
            stats_windows: after.stats_windows,
            graphics: after.graphics,
            data_windows: after.data_windows,
            panels: after.panels,
            pending_layout: after.pending_layout,
            ..self
        })
    }

    /// Opens and closes windows and panels as a desktop says.
    pub fn apply_desktop(&mut self, d: &Desktop)
        requires
            old(self).wf(),
        ensures
            final(self).wf(),
            old(self).is_arranged(*final(self), *d),
    {
        let ghost was = *self;
        let total: usize = self.trace_windows.len();
        for i in 0..total
            invariant
                total == was.trace_windows@.len(),
                was == *old(self),
                *self == (App { trace_windows: self.trace_windows, ..was }),
                self.trace_windows@.len() == was.trace_windows@.len(),
                forall|k: int|
                    0 <= k < i ==> #[trigger] self.trace_windows@[k] == (TraceWin {
                        opened: d.opens(WindowKind::Trace, was.trace_windows@[k].name@),
                        ..was.trace_windows@[k]
                    }),
                forall|k: int|
                    i <= k < was.trace_windows@.len() ==> #[trigger] self.trace_windows@[k]
                        == was.trace_windows@[k],
        {
            let open: bool = d.is_open(WindowKind::Trace, self.trace_windows[i].name.as_str());
            let w: &mut TraceWin = &mut self.trace_windows[i];
            w.opened = open;
        }
        let total: usize = self.msg_windows.len();
        for i in 0..total
            invariant
                total == was.msg_windows@.len(),
                *self == (App {
                    trace_windows: self.trace_windows,
                    msg_windows: self.msg_windows,
                    ..was
                }),
                self.msg_windows@.len() == was.msg_windows@.len(),
                forall|k: int|
                    0 <= k < i ==> #[trigger] self.msg_windows@[k] == (MsgWin {
                        opened: d.opens(WindowKind::Messages, was.msg_windows@[k].name@),
                        ..was.msg_windows@[k]
                    }),
                forall|k: int|
                    i <= k < was.msg_windows@.len() ==> #[trigger] self.msg_windows@[k]
                        == was.msg_windows@[k],
                self.trace_windows@.len() == was.trace_windows@.len(),
                forall|k: int|
                    0 <= k < was.trace_windows@.len() ==> #[trigger] self.trace_windows@[k] == (
                    TraceWin {
                        opened: d.opens(WindowKind::Trace, was.trace_windows@[k].name@),
                        ..was.trace_windows@[k]
                    }),
        {
            let open: bool = d.is_open(WindowKind::Messages, self.msg_windows[i].name.as_str());
            let w: &mut MsgWin = &mut self.msg_windows[i];
            w.opened = open;
        }
        let ghost mid = *self;
        let total: usize = self.stats_windows.len();
        for i in 0..total
            invariant
                total == was.stats_windows@.len(),
                mid.stats_windows == was.stats_windows,
                *self == (App { stats_windows: self.stats_windows, ..mid }),
                self.stats_windows@.len() == was.stats_windows@.len(),
                forall|k: int|
                    0 <= k < i ==> #[trigger] self.stats_windows@[k] == (StatsWin {
                        opened: d.opens(WindowKind::Statistics, was.stats_windows@[k].name@),
                        ..was.stats_windows@[k]
                    }),
                forall|k: int|
                    i <= k < was.stats_windows@.len() ==> #[trigger] self.stats_windows@[k]
                        == was.stats_windows@[k],
        {
            let open: bool = d.is_open(WindowKind::Statistics, self.stats_windows[i].name.as_str());
            let w: &mut StatsWin = &mut self.stats_windows[i];
            w.opened = open;
        }
        let ghost mid2 = *self;
        let total: usize = self.graphics.len();
        for i in 0..total
            invariant
                total == was.graphics@.len(),
                mid2.graphics == was.graphics,
                *self == (App { graphics: self.graphics, ..mid2 }),
                self.graphics@.len() == was.graphics@.len(),
                forall|k: int|
                    0 <= k < i ==> #[trigger] self.graphics@[k] == (GraphicsWindow {
                        opened: d.opens(WindowKind::Graphics, was.graphics@[k].name@),
                        ..was.graphics@[k]
                    }),
                forall|k: int|
                    i <= k < was.graphics@.len() ==> #[trigger] self.graphics@[k]
                        == was.graphics@[k],
        {
            let open: bool = d.is_open(WindowKind::Graphics, self.graphics[i].name.as_str());
            let w: &mut GraphicsWindow = &mut self.graphics[i];
            w.opened = open;
        }
        let ghost mid3 = *self;
        let total: usize = self.data_windows.len();
        for i in 0..total
            invariant
                total == was.data_windows@.len(),
                mid3.data_windows == was.data_windows,
                *self == (App { data_windows: self.data_windows, ..mid3 }),
                self.data_windows@.len() == was.data_windows@.len(),
                forall|k: int|
                    0 <= k < i ==> #[trigger] self.data_windows@[k] == (DataWindow {
                        opened: d.opens(WindowKind::Data, was.data_windows@[k].name@),
                        ..was.data_windows@[k]
                    }),
                forall|k: int|
                    i <= k < was.data_windows@.len() ==> #[trigger] self.data_windows@[k]
                        == was.data_windows@[k],
        {
            let open: bool = d.is_open(WindowKind::Data, self.data_windows[i].name.as_str());
            let w: &mut DataWindow = &mut self.data_windows[i];
            w.opened = open;
        }
        self.panels = d.panels;
        self.pending_layout = Some(d.layout.clone());
        assert forall|i: int| 0 <= i < self.trace_windows@.len() implies workspace::is_set(
            (#[trigger] self.trace_windows@[i]).manual@,
        ) by {
            assert(workspace::is_set(was.trace_windows@[i].manual@));
        }
        assert forall|i: int| 0 <= i < self.msg_windows@.len() implies workspace::is_set(
            (#[trigger] self.msg_windows@[i]).manual@,
        ) by {
            assert(workspace::is_set(was.msg_windows@[i].manual@));
        }
        assert forall|i: int| 0 <= i < self.stats_windows@.len() implies workspace::is_set(
            (#[trigger] self.stats_windows@[i]).manual@,
        ) by {
            assert(workspace::is_set(was.stats_windows@[i].manual@));
        }
    }

    /// A new workspace: the two sample buses, one window of each kind, and one
    /// desktop that holds them all.
    pub open spec fn is_new(self, files: Seq<Vec<Result<FileText, String>>>) -> bool {
        &&& is_started_core(self.core, files)
        &&& self.status@ == "stopped"@
        &&& self.log_path@.len() == 0
        &&& self.log_info is None
        &&& self.recent_dbc@.len() == 0
        &&& self.recent_log@.len() == 0
        &&& self.layout_cache@.len() == 0
        &&& self.pending_layout is None
        &&& self.desktops@.len() == 1
        &&& self.desktops@[0].name@ == "Desktop 1"@
        &&& self.desktops@[0].layout@.len() == 0
        &&& self.desktops@[0].open_windows@ == self.open_windows_spec()
        &&& self.desktops@[0].panels == self.panels
        &&& self.active_desktop == 0
        &&& self.replay_speed == SINGLE_SPEED
        &&& !self.replay_reset_pending
        &&& self.trigger_sel is None
        &&& self.trig_edit_sel is None
        &&& self.spec_tol_pct == TOLERANCE_PERCENT
        &&& self.spec_grace == GRACE_CYCLES
        &&& self.panels == (Panels {
            show_tx: true,
            show_network: true,
            show_measurement: true,
            show_buses: false,
            show_triggers: false,
            show_bus_stats: false,
            show_spec: false,
            show_id_filter: false,
        })
        &&& self.text_rate_hz == 10
        &&& self.text_fresh
        &&& self.status_counters@.len() == 0
        &&& self.net_selected == 0
        &&& self.trace_windows@.len() == 1
        &&& is_new_trace(self.trace_windows@[0], 1)
        &&& self.msg_windows@.len() == 1
        &&& is_new_msg(self.msg_windows@[0], 1)
        &&& self.stats_windows@.len() == 1
        &&& is_new_stats(self.stats_windows@[0], 1)
        &&& self.graphics@.len() == 1
        &&& is_new_graphics(self.graphics@[0], 1)
        &&& self.data_windows@.len() == 1
        &&& is_new_data(self.data_windows@[0], 1)
        &&& self.counters == (Counters { trace: 1, msg: 1, stats: 1, graphics: 1, data: 1 })
    }

    /// A new workspace. `files` is what was read of the two sample databases.
    pub fn new(files: &BusFiles) -> (app: App)
        requires
            files@.len() == 2,
            files@[0]@.len() == 1,
            files@[1]@.len() == 1,
        ensures
            app.wf(),
            app.is_new(files@),
    {
        let mut loads: Vec<BusLoad> = Vec::new();
        loads.push(BusLoad { notes: Vec::new() });
        loads.push(BusLoad { notes: Vec::new() });
        let mut core: BusCore = BusCore::new(loads);
        let ghost blank = core;
        core.channels.push(sample_channel("CAN1", "assets/sample.dbc"));
        core.channels.push(sample_channel("CAN2", "assets/motbus.dbc"));
        let ghost start = core;
        assert(blank.is_blank(blank.bus_loads));
        assert(is_sample_core(start));
        assert(start.channels@[0].dbc_paths@.len() == text::views(
            start.channels@[0].dbc_paths@,
        ).len());
        assert(start.channels@[1].dbc_paths@.len() == text::views(
            start.channels@[1].dbc_paths@,
        ).len());
        core.bootstrap_dbcs(files);
        let ghost loaded = core;
        core.populate_generator();
        assert(is_started_core(core, files@));
        proof {
            reveal_strlit("");
        }
        let mut app: App = App {
            core,
            status: "stopped".to_owned(),
            log_path: String::new(),
            log_info: None,
            recent_dbc: Vec::new(),
            recent_log: Vec::new(),
            layout_cache: String::new(),
            pending_layout: None,
            desktops: Vec::new(),
            active_desktop: 0,
            replay_speed: SINGLE_SPEED,
            replay_reset_pending: false,
            trigger_sel: None,
            trig_edit_sel: None,
            spec_tol_pct: TOLERANCE_PERCENT,
            spec_grace: GRACE_CYCLES,
            panels: Panels {
                show_tx: true,
                show_network: true,
                show_measurement: true,
                show_buses: false,
                show_triggers: false,
                show_bus_stats: false,
                show_spec: false,
                show_id_filter: false,
            },
            text_rate_hz: 10,
            text_fresh: true,
            status_counters: String::new(),
            net_selected: 0,
            trace_windows: Vec::new(),
            msg_windows: Vec::new(),
            stats_windows: Vec::new(),
            graphics: Vec::new(),
            data_windows: Vec::new(),
            counters: Counters { trace: 0, msg: 0, stats: 0, graphics: 0, data: 0 },
        };
        app.new_trace_window();
        app.new_msg_window();
        app.new_stats_window();
        app.new_graphics_window();
        app.new_data_window();
        let mut first: Desktop = app.desktop_snapshot();
        first.name = "Desktop 1".to_owned();
        app.desktops.push(first);
        app
    }

    /// Opens another trace window.
    pub fn new_trace_window(&mut self)
        requires
            old(self).counters.trace < usize::MAX,
        ensures
            final(self).counters.trace == old(self).counters.trace + 1,
            final(self).trace_windows@.len() == old(self).trace_windows@.len() + 1,
            final(self).trace_windows@.drop_last() == old(self).trace_windows@,
            is_new_trace(
                final(self).trace_windows@.last(),
                old(self).counters.trace + 1,
            ),
            *final(self) == (App {
                trace_windows: final(self).trace_windows,
                counters: Counters {
                    trace: final(self).counters.trace,
                    ..old(self).counters
                },
                ..*old(self)
            }),
    {
        proof {
            reveal_strlit("");
        }
        self.counters.trace = self.counters.trace + 1;
        let ghost before = self.trace_windows@;
        self.trace_windows.push(
            TraceWin {
                name: number_name("Trace ", self.counters.trace as u64),
                opened: true,
                scope: SigScope::All,
                manual: Vec::new(),
                filter: String::new(),
                dir: 0,
                dbc_only: false,
                shown_t_us: u64::MAX,
                shown_count: 0,
            },
        );
        assert(self.trace_windows@.drop_last() =~= before);
    }

    /// Opens another messages window.
    pub fn new_msg_window(&mut self)
        requires
            old(self).counters.msg < usize::MAX,
        ensures
            final(self).counters.msg == old(self).counters.msg + 1,
            final(self).msg_windows@.len() == old(self).msg_windows@.len() + 1,
            final(self).msg_windows@.drop_last() == old(self).msg_windows@,
            is_new_msg(final(self).msg_windows@.last(), old(self).counters.msg + 1),
            *final(self) == (App {
                msg_windows: final(self).msg_windows,
                counters: Counters { msg: final(self).counters.msg, ..old(self).counters },
                ..*old(self)
            }),
    {
        proof {
            reveal_strlit("");
        }
        self.counters.msg = self.counters.msg + 1;
        let ghost before = self.msg_windows@;
        self.msg_windows.push(
            MsgWin {
                name: number_name("Messages ", self.counters.msg as u64),
                opened: true,
                scope: SigScope::All,
                manual: Vec::new(),
                filter: String::new(),
                dbc_only: false,
                text_keys: Vec::new(),
                text_rows: Vec::new(),
                text_header: String::new(),
            },
        );
        assert(self.msg_windows@.drop_last() =~= before);
    }

    /// Opens another statistics window.
    pub fn new_stats_window(&mut self)
        requires
            old(self).counters.stats < usize::MAX,
        ensures
            final(self).counters.stats == old(self).counters.stats + 1,
            final(self).stats_windows@.len() == old(self).stats_windows@.len() + 1,
            final(self).stats_windows@.drop_last() == old(self).stats_windows@,
            is_new_stats(
                final(self).stats_windows@.last(),
                old(self).counters.stats + 1,
            ),
            *final(self) == (App {
                stats_windows: final(self).stats_windows,
                counters: Counters {
                    stats: final(self).counters.stats,
                    ..old(self).counters
                },
                ..*old(self)
            }),
    {
        proof {
            reveal_strlit("");
        }
        self.counters.stats = self.counters.stats + 1;
        let ghost before = self.stats_windows@;
        self.stats_windows.push(
            StatsWin {
                name: number_name("Statistics ", self.counters.stats as u64),
                opened: true,
                scope: SigScope::All,
                manual: Vec::new(),
                text_keys: Vec::new(),
                text_rows: Vec::new(),
                text_header: String::new(),
            },
        );
        assert(self.stats_windows@.drop_last() =~= before);
    }

    /// Opens another plot window.
    pub fn new_graphics_window(&mut self)
        requires
            old(self).counters.graphics < usize::MAX,
        ensures
            final(self).counters.graphics == old(self).counters.graphics + 1,
            final(self).graphics@.len() == old(self).graphics@.len() + 1,
            final(self).graphics@.drop_last() == old(self).graphics@,
            is_new_graphics(
                final(self).graphics@.last(),
                old(self).counters.graphics + 1,
            ),
            *final(self) == (App {
                graphics: final(self).graphics,
                counters: Counters {
                    graphics: final(self).counters.graphics,
                    ..old(self).counters
                },
                ..*old(self)
            }),
    {
        self.counters.graphics = self.counters.graphics + 1;
        let ghost before = self.graphics@;
        self.graphics.push(
            GraphicsWindow {
                name: number_name("Graphics ", self.counters.graphics as u64),
                signals: Vec::new(),
                time_window_s: DEFAULT_TIME_WINDOW,
                stacked: false,
                opened: true,
                t_offset_s: 0,
                show_cursor: false,
                zoom_enabled: true,
                show_markers: true,
            },
        );
        assert(self.graphics@.drop_last() =~= before);
    }

    /// Opens another data window.
    pub fn new_data_window(&mut self)
        requires
            old(self).counters.data < usize::MAX,
        ensures
            final(self).counters.data == old(self).counters.data + 1,
            final(self).data_windows@.len() == old(self).data_windows@.len() + 1,
            final(self).data_windows@.drop_last() == old(self).data_windows@,
            is_new_data(
                final(self).data_windows@.last(),
                old(self).counters.data + 1,
            ),
            *final(self) == (App {
                data_windows: final(self).data_windows,
                counters: Counters { data: final(self).counters.data, ..old(self).counters },
                ..*old(self)
            }),
    {
        self.counters.data = self.counters.data + 1;
        let ghost before = self.data_windows@;
        self.data_windows.push(
            DataWindow {
                name: number_name("Data ", self.counters.data as u64),
                signals: Vec::new(),
                opened: true,
            },
        );
        assert(self.data_windows@.drop_last() =~= before);
    }

    /// A command went to the bus; what it told, if anything, is the status.
    pub open spec fn is_asked(self, after: App, cmd: BusCommand, actions: Seq<BusAction>) -> bool {
        exists|told: Seq<char>|
            {
                &&& #[trigger] self.core.is_handled(
                    after.core,
                    cmd,
                    Seq::empty(),
                    told,
                    actions,
                )
                &&& after.status@ == (if told.len() == 0 {
                    self.status@
                } else {
                    told
                })
                &&& after == (App { core: after.core, status: after.status, ..self })
            }
    }

    /// Gives the bus a command. Returns the outside work that it asks for.
    pub fn send(&mut self, cmd: BusCommand) -> (actions: Vec<BusAction>)
        requires
            old(self).wf(),
            old(self).core.accepts(cmd),
        ensures
            final(self).wf(),
            old(self).is_asked(*final(self), cmd, actions@),
    {
        let mut status: String = String::new();
        proof {
            reveal_strlit("");
        }
        assert(status@ =~= Seq::empty());
        let actions: Vec<BusAction> = self.core.handle(cmd, &mut status);
        let ghost told = status@;
        assert(told.len() == 0 ==> told =~= ""@);
        assert(old(self).core.is_handled(self.core, cmd, Seq::empty(), told, actions@));
        if !text::same_text(status.as_str(), "") {
            self.status = status;
        }
        actions
    }

    /// Stops the bus; the next Play opens the log from the start.
    pub fn stop(&mut self) -> (actions: Vec<BusAction>)
        requires
            old(self).wf(),
        ensures
            final(self).wf(),
            final(self).replay_reset_pending,
            old(self).is_asked(
                App {
                    replay_reset_pending: old(self).replay_reset_pending,
                    ..*final(self)
                },
                BusCommand::Stop,
                actions@,
            ),
    {
        let actions: Vec<BusAction> = self.send(BusCommand::Stop);
        let ghost asked = *self;
        self.replay_reset_pending = true;
        assert(App { replay_reset_pending: old(self).replay_reset_pending, ..*self } == asked);
        actions
    }

    /// A switch between simulation and replay: a running measurement is stopped
    /// first, and the mode that is already selected is left alone.
    pub open spec fn is_switched(self, after: App, mode: Mode, actions: Seq<BusAction>) -> bool {
        if mode == self.core.run_mode {
            after == self && actions.len() == 0
        } else if self.core.measuring {
            exists|mid: App, first: Seq<BusAction>, second: Seq<BusAction>|
                {
                    &&& #[trigger] self.is_asked(
                        App { replay_reset_pending: self.replay_reset_pending, ..mid },
                        BusCommand::Stop,
                        first,
                    )
                    &&& mid.replay_reset_pending
                    &&& #[trigger] mid.is_asked(after, BusCommand::SetRunMode(mode), second)
                    &&& actions == first + second
                }
        } else {
            self.is_asked(after, BusCommand::SetRunMode(mode), actions)
        }
    }

    pub fn switch_run_mode(&mut self, mode: Mode) -> (actions: Vec<BusAction>)
        requires
            old(self).wf(),
        ensures
            final(self).wf(),
            old(self).is_switched(*final(self), mode, actions@),
    {
        if mode == self.core.run_mode {
            return Vec::new();
        }
        if self.core.measuring {
            let mut actions: Vec<BusAction> = self.stop();
            let ghost first = actions@;
            let ghost mid = *self;
            let mut more: Vec<BusAction> = self.send(BusCommand::SetRunMode(mode));
            let ghost second = more@;
            assert(mid.is_asked(*self, BusCommand::SetRunMode(mode), second));
            actions.append(&mut more);
            assert(actions@ =~= first + second);
            actions
        } else {
            self.send(BusCommand::SetRunMode(mode))
        }
    }

    /// The log that Play would open: the selected one, else the last recording.
    pub open spec fn replay_path_spec(self) -> Seq<char> {
        if text::trimmed(self.log_path@).len() > 0 {
            text::trimmed(self.log_path@)
        } else {
            self.core.recorder.last_record@
        }
    }

    /// There is a log to replay.
    pub open spec fn can_replay_spec(self) -> bool {
        text::trimmed(self.log_path@).len() > 0 || text::trimmed(
            self.core.recorder.last_record@,
        ).len() > 0
    }

    pub fn can_replay(&self) -> (r: bool)
        ensures
            r == self.can_replay_spec(),
    {
        text::trim_chars(self.log_path.as_str()).len() > 0 || text::trim_chars(
            self.core.recorder.last_record.as_str(),
        ).len() > 0
    }

    fn replay_path(&self) -> (r: String)
        ensures
            r@ == self.replay_path_spec(),
    {
        if text::trim_chars(self.log_path.as_str()).len() > 0 {
            text::trim(self.log_path.as_str())
        } else {
            self.core.recorder.last_record.clone()
        }
    }

    /// What starting does in the selected mode.
    pub open spec fn starts_as(self, start: Start) -> bool {
        match self.core.run_mode {
            Mode::Virtual => start is Virtual,
            Mode::Replay => if self.can_replay_spec() {
                start is Replay && (start->Replay_0)@ == self.replay_path_spec()
            } else {
                start is PickLog
            },
        }
    }

    /// Decides how the selected mode starts; a replay without a log asks for one.
    pub fn start_selected(&self) -> (start: Start)
        ensures
            self.starts_as(start),
    {
        match self.core.run_mode {
            Mode::Virtual => Start::Virtual,
            Mode::Replay => if self.can_replay() {
                Start::Replay(self.replay_path())
            } else {
                Start::PickLog
            },
        }
    }

    /// A log was chosen: refused while a replay runs, else selected for the next
    /// fresh Play where it could be opened.
    pub open spec fn is_log_chosen(
        self,
        after: App,
        path: Seq<char>,
        name: Seq<char>,
        opened: Result<String, String>,
    ) -> bool {
        if self.core.measuring && self.core.mode == Mode::Replay {
            &&& after.status@ == "stop the replay before loading another log"@
            &&& after == (App { status: after.status, ..self })
        } else {
            match opened {
                Ok(info) => {
                    &&& after.log_path@ == path
                    &&& after.log_info == (if info@.len() == 0 {
                        None
                    } else {
                        Some(info)
                    })
                    &&& after.replay_reset_pending
                    &&& after.status@ == (if info@.len() == 0 {
                        "loaded "@ + name
                    } else {
                        "loaded "@ + name + " ["@ + info@ + "]"@
                    })
                    &&& text::views(after.recent_log@) == with_recent(
                        text::views(self.recent_log@),
                        path,
                    )
                    &&& after == (App {
                        log_path: after.log_path,
                        log_info: after.log_info,
                        replay_reset_pending: true,
                        status: after.status,
                        recent_log: after.recent_log,
                        ..self
                    })
                },
                Err(e) => {
                    &&& after.status@ == "log load failed ["@ + path + "]: "@ + e@
                    &&& after == (App { status: after.status, ..self })
                },
            }
        }
    }

    /// Selects a log for replay without starting it. `name` is its file name, and
    /// `opened` what opening it gave: its description.
    pub fn load_log(&mut self, path: &str, name: &str, opened: Result<String, String>)
        requires
            old(self).wf(),
        ensures
            final(self).wf(),
            old(self).is_log_chosen(*final(self), path@, name@, opened),
    {
        if self.core.measuring && self.core.mode == Mode::Replay {
            self.status = "stop the replay before loading another log".to_owned();
            return;
        }
        match opened {
            Ok(info) => {
                proof {
                    reveal_strlit("");
                }
                assert(info@.len() == 0 ==> info@ =~= ""@);
                let mut line: String = "loaded ".to_owned();
                line.append(name);
                let plain: bool = text::same_text(info.as_str(), "");
                if !plain {
                    line.append(" [");
                    line.append(info.as_str());
                    line.append("]");
                }
                self.log_path = path.to_owned();
                self.log_info = if plain {
                    None
                } else {
                    Some(info)
                };
                self.replay_reset_pending = true;
                self.status = line;
                push_recent(&mut self.recent_log, path.to_owned());
            },
            Err(e) => {
                let mut line: String = "log load failed [".to_owned();
                line.append(path);
                line.append("]: ");
                line.append(e.as_str());
                self.status = line;
            },
        }
    }

    /// A replay was asked for: without a log only the status changes, with one the
    /// bus is told to open it.
    pub open spec fn is_replay_asked(
        self,
        after: App,
        speed: String,
        opened: Result<OpenedLog, String>,
        actions: Seq<BusAction>,
    ) -> bool {
        if text::trimmed(self.replay_path_spec()).len() == 0 {
            &&& after.status@ == "replay: no log selected"@
            &&& after == (App { status: after.status, ..self })
            &&& actions.len() == 0
        } else {
            exists|path: String|
                {
                    &&& path@ == self.replay_path_spec()
                    &&& #[trigger] (App { replay_reset_pending: false, ..self }).is_asked(
                        after,
                        BusCommand::StartReplay { path, speed, opened },
                        actions,
                    )
                }
        }
    }

    /// Starts playback of the selected log, or of the last recording. `speed` is the
    /// speed in words, `opened` what opening the log gave.
    pub fn replay(&mut self, speed: String, opened: Result<OpenedLog, String>) -> (actions: Vec<
        BusAction,
    >)
        requires
            old(self).wf(),
        ensures
            final(self).wf(),
            old(self).is_replay_asked(*final(self), speed, opened, actions@),
    {
        let path: String = self.replay_path();
        if text::trim_chars(path.as_str()).len() == 0 {
            self.status = "replay: no log selected".to_owned();
            return Vec::new();
        }
        self.replay_reset_pending = false;
        let ghost mid = *self;
        let ghost chosen = path;
        let actions: Vec<BusAction> = self.send(BusCommand::StartReplay { path, speed, opened });
        assert(mid == (App { replay_reset_pending: false, ..*old(self) }));
        assert(mid.is_asked(
            *self,
            BusCommand::StartReplay { path: chosen, speed, opened },
            actions@,
        ));
        actions
    }

    /// Changes the replay speed, now and for the next run.
    pub fn set_replay_speed(&mut self, speed: u64) -> (actions: Vec<BusAction>)
        requires
            old(self).wf(),
        ensures
            final(self).wf(),
            (App { replay_speed: speed, ..*old(self) }).is_asked(
                *final(self),
                BusCommand::SetReplaySpeed(speed),
                actions@,
            ),
    {
        self.replay_speed = speed;
        self.send(BusCommand::SetReplaySpeed(speed))
    }

    /// Moves along the ladder of speeds; the ends hold.
    pub fn step_replay_speed(&mut self, delta: i32) -> (actions: Vec<BusAction>)
        requires
            old(self).wf(),
        ensures
            final(self).wf(),
            ({
                let speed = stepped_speed(old(self).replay_speed, delta as int);
                (App { replay_speed: speed, ..*old(self) }).is_asked(
                    *final(self),
                    BusCommand::SetReplaySpeed(speed),
                    actions@,
                )
            }),
    {
        let i: usize = find_rung(self.replay_speed);
        let want: i64 = i as i64 + delta as i64;
        let next: usize = if want < 0 {
            0
        } else if want > 3 {
            3
        } else {
            want as usize
        };
        self.set_replay_speed(ladder_speed(next))
    }

    /// A scrubbed replay is parked in its log, and Play picks it up there.
    pub open spec fn can_resume_spec(self, has_position: bool) -> bool {
        self.core.mode == Mode::Replay && !self.replay_reset_pending && has_position
    }

    /// What Play starts: a parked replay resumes, anything else starts as selected.
    pub open spec fn plays_as(self, has_position: bool, p: Play) -> bool {
        if self.can_resume_spec(has_position) {
            p is Resume
        } else {
            p is Start && self.starts_as(p->Start_0)
        }
    }

    /// Decides what Play does. `has_position` tells whether the source stands
    /// somewhere in a log.
    pub fn play(&self, has_position: bool) -> (p: Play)
        ensures
            self.plays_as(has_position, p),
    {
        if self.core.mode == Mode::Replay && !self.replay_reset_pending && has_position {
            Play::Resume
        } else {
            Play::Start(self.start_selected())
        }
    }

    /// Play and pause as one action.
    pub fn toggle_play(&self, has_position: bool) -> (p: Play)
        ensures
            self.core.measuring ==> p == Play::SetPaused(!self.core.trace_paused),
            !self.core.measuring ==> self.plays_as(has_position, p),
    {
        if self.core.measuring {
            Play::SetPaused(!self.core.trace_paused)
        } else {
            self.play(has_position)
        }
    }

    /// The time that plots treat as now: the playhead of a replay, else the
    /// simulated clock, which stops in a pause.
    pub fn plot_now_us(&self, position: Option<u64>) -> (r: u64)
        ensures
            r == (if self.core.mode == Mode::Replay && position is Some {
                position->0
            } else {
                self.core.sim_t_us
            }),
    {
        if self.core.mode == Mode::Replay {
            match position {
                Some(p) => {
                    return p;
                },
                None => {},
            }
        }
        self.core.sim_t_us
    }

    /// Moves every plot window back to the live edge.
    pub fn jump_to_live(&mut self)
        requires
            old(self).wf(),
        ensures
            final(self).wf(),
            final(self).graphics@.len() == old(self).graphics@.len(),
            forall|i: int|
                0 <= i < old(self).graphics@.len() ==> #[trigger] final(self).graphics@[i] == (
                GraphicsWindow { t_offset_s: 0, ..old(self).graphics@[i] }),
            *final(self) == (App { graphics: final(self).graphics, ..*old(self) }),
    {
        let total: usize = self.graphics.len();
        for i in 0..total
            invariant
                total == old(self).graphics@.len(),
                *self == (App { graphics: self.graphics, ..*old(self) }),
                self.graphics@.len() == old(self).graphics@.len(),
                forall|k: int|
                    0 <= k < i ==> #[trigger] self.graphics@[k] == (GraphicsWindow {
                        t_offset_s: 0,
                        ..old(self).graphics@[k]
                    }),
                forall|k: int|
                    i <= k < old(self).graphics@.len() ==> #[trigger] self.graphics@[k] == old(
                        self,
                    ).graphics@[k],
        {
            let w: &mut GraphicsWindow = &mut self.graphics[i];
            w.t_offset_s = 0;
        }
    }
}

/// Whether throttled readouts change: always at rate 0, else once the rate's period has
/// passed.
pub fn text_due(rate_hz: u32, elapsed_us: u64) -> (r: bool)
    ensures
        r == (rate_hz == 0 || elapsed_us >= (1000u32 / rate_hz) * 1000),
{
    if rate_hz == 0 {
        return true;
    }
    let ms: u32 = 1000 / rate_hz;
    assert(ms <= 1000) by (nonlinear_arith)
        requires
            ms == 1000u32 / rate_hz,
            rate_hz >= 1,
    ;
    elapsed_us >= ms as u64 * 1000
}

/// Stepping up and down again returns to the rung, where neither end was met; and no
/// step leaves the ladder.
pub proof fn law_the_ladder_holds_its_ends(bits: u64, delta: int)
    ensures
        0 <= rung_of(bits) <= 3,
        rung_of(speed_at(rung_of(bits))) == rung_of(bits),
        0 <= rung_of(bits) + delta <= 3 ==> stepped_speed(stepped_speed(bits, delta), -delta)
            == speed_at(rung_of(bits)),
        rung_of(bits) + delta < 0 ==> stepped_speed(bits, delta) == speed_at(0),
        rung_of(bits) + delta > 3 ==> stepped_speed(bits, delta) == speed_at(3),
{
}

/// A file stands at most once in its recent list, the newest first, and never more than
/// the cap.
pub proof fn law_recents_are_capped(list: Seq<Seq<char>>, path: Seq<char>)
    ensures
        with_recent(list, path).len() <= RECENT_CAP,
        with_recent(list, path)[0] == path,
        forall|i: int|
            0 < i < with_recent(list, path).len() ==> #[trigger] with_recent(list, path)[i]
                != path,
{
    lemma_without_path(list, path, list.len() as int);
    let rest = without_path(list, path, list.len() as int);
    let all = seq![path] + rest;
    assert forall|i: int| 0 < i < with_recent(list, path).len() implies #[trigger] with_recent(
        list,
        path,
    )[i] != path by {
        assert(with_recent(list, path)[i] == all[i]);
        assert(all[i] == rest[i - 1]);
    }
}

proof fn lemma_without_path(list: Seq<Seq<char>>, path: Seq<char>, n: int)
    requires
        0 <= n <= list.len(),
    ensures
        forall|i: int|
            0 <= i < without_path(list, path, n).len() ==> #[trigger] without_path(
                list,
                path,
                n,
            )[i] != path,
    decreases n,
{
    if n > 0 {
        lemma_without_path(list, path, n - 1);
        let before = without_path(list, path, n - 1);
        assert forall|i: int|
            0 <= i < without_path(list, path, n).len() implies #[trigger] without_path(
            list,
            path,
            n,
        )[i] != path by {
            if i < before.len() {
                assert(without_path(list, path, n)[i] == before[i]);
            }
        }
    }
}

/// What a desktop holds open is what stands open once it is arranged: an arrangement that
/// was read back opens the same windows and panels.
pub proof fn law_desktops_restore_what_they_hold(app: App, after: App, d: Desktop)
    requires
        app.is_arranged(after, d),
    ensures
        after.panels == d.panels,
        forall|i: int|
            0 <= i < after.trace_windows@.len() ==> (#[trigger] after.trace_windows@[i]).opened
                == d.opens(WindowKind::Trace, after.trace_windows@[i].name@),
        forall|i: int|
            0 <= i < after.graphics@.len() ==> (#[trigger] after.graphics@[i]).opened == d.opens(
                WindowKind::Graphics,
                after.graphics@[i].name@,
            ),
{
    assert forall|i: int| 0 <= i < after.trace_windows@.len() implies (
    #[trigger] after.trace_windows@[i]).opened == d.opens(
        WindowKind::Trace,
        after.trace_windows@[i].name@,
    ) by {
        assert(after.trace_windows@[i].name == app.trace_windows@[i].name);
    }
    assert forall|i: int| 0 <= i < after.graphics@.len() implies (
    #[trigger] after.graphics@[i]).opened == d.opens(
        WindowKind::Graphics,
        after.graphics@[i].name@,
    ) by {
        assert(after.graphics@[i].name == app.graphics@[i].name);
    }
}

} // verus!
