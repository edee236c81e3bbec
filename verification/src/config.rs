//! The saved form of a workspace: buses, windows, signals, filters, the generator, the
//! trigger rules and the desktops. Numbers that are no integers are kept as the bit
//! patterns of their doubles.

use vstd::prelude::*;
use vstd::string::*;
use crate::app::{App, Counters};
use crate::can::frame::FrameFlags;
use crate::channel;
use crate::channel::{Channel, NodeRole, RoleEntry};
use crate::generator::TxMsg;
use crate::monitor::{GRACE_CYCLES, TOLERANCE_PERCENT};
use crate::paths;
use crate::paths::PathStyle;
use crate::sim::{copy_words, SrcKind, ValueSrc};
use crate::text;
use crate::triggers::{Trigger, TriggerAction, TriggerCond};
use crate::workspace::{
    copy_set, DataWindow, Desktop, GfxSignal, GraphicsWindow, MsgWin, Panels, SigScope, StatsWin,
    TraceWin, WindowKind, YMode,
};

verus! {

/// One project file: the workspace and the layout text.
pub struct ProjectFile {
    pub version: u32,
    pub layout: String,
    /// Only set in autosaves: the project the workspace belonged to.
    pub project: Option<String>,
    pub config: Config,
}

/// What is remembered from one session to the next.
pub struct Meta {
    pub last_project: Option<String>,
    pub recent_projects: Vec<String>,
}

pub struct ChannelCfg {
    pub name: String,
    /// The primary database.
    pub dbc_path: String,
    /// The database nodes that this tool transmits as.
    pub sim_nodes: Vec<String>,
    pub bitrate_kbps: u32,
    pub fd_data_kbps: u32,
}

pub struct TraceCfg {
    pub name: String,
    pub opened: bool,
    pub scope: SigScope,
    pub manual: Vec<(u8, u32)>,
    pub filter: String,
    pub dir: usize,
    pub dbc_only: bool,
}

pub struct MsgCfg {
    pub name: String,
    pub opened: bool,
    pub scope: SigScope,
    pub manual: Vec<(u8, u32)>,
    pub filter: String,
    pub dbc_only: bool,
}

pub struct StatsCfg {
    pub name: String,
    pub opened: bool,
    pub scope: SigScope,
    pub manual: Vec<(u8, u32)>,
}

pub struct SignalCfg {
    pub ch: u8,
    pub id: u32,
    pub signal: String,
    pub visible: bool,
    /// The code of the axis mode; an unknown one loads as Auto.
    pub y_mode: u8,
}

pub struct GfxCfg {
    pub name: String,
    pub opened: bool,
    pub signals: Vec<SignalCfg>,
    pub time_window_s: u64,
    pub stacked: bool,
    pub show_cursor: bool,
    pub zoom_enabled: bool,
    pub show_markers: bool,
}

pub struct DataCfg {
    pub name: String,
    pub opened: bool,
    pub signals: Vec<SignalCfg>,
}

/// One driven signal. An unknown kind drops the whole entry on load rather than guess a
/// shape.
pub struct SrcCfg {
    pub name: String,
    pub kind: u8,
    pub lo: u64,
    pub hi: u64,
    pub period_us: u64,
    pub phase_us: u64,
    pub seq: Vec<u64>,
    pub seed: u64,
    pub redraw_us: u64,
}

pub struct TxCfg {
    pub channel: u8,
    pub id: u32,
    pub active: bool,
    pub data_text: String,
    pub data: Vec<u8>,
    pub cycle_us: u64,
    pub fd: bool,
    pub srcs: Vec<SrcCfg>,
}

pub struct DesktopCfg {
    pub name: String,
    pub layout: String,
    pub open: Vec<(u8, String)>,
    pub show_tx: bool,
    pub show_network: bool,
    pub show_measurement: bool,
    pub show_buses: bool,
    pub show_triggers: bool,
    pub show_bus_stats: bool,
    pub show_spec: bool,
    pub show_id_filter: bool,
}

/// One trigger rule: the condition flattened to a kind code and its fields, the action
/// as a code. Edge state is not saved: a reloaded workspace is a fresh measurement.
pub struct TriggerCfg {
    pub kind: u8,
    pub ch: u8,
    pub id: u32,
    /// The signal's name; the key for a rule on a system variable.
    pub signal: String,
    pub threshold: u64,
    pub rising: bool,
    pub action: u8,
    pub send_ch: u8,
    pub send_id: u32,
    pub enabled: bool,
}

/// How strictly the monitor reads the databases' promises.
#[derive(Clone, Copy, Debug, PartialEq, Eq, Structural)]
pub struct SpecCfg {
    pub tolerance_percent: u64,
    pub grace_cycles: u64,
}

pub struct Config {
    pub channels: Vec<ChannelCfg>,
    pub bus_counter: usize,
    pub show_tx: bool,
    pub show_network: bool,
    pub show_measurement: bool,
    pub show_buses: bool,
    pub show_triggers: bool,
    pub show_bus_stats: bool,
    pub show_spec: bool,
    pub show_id_filter: bool,
    pub replay_speed: u64,
    pub text_rate_hz: u32,
    pub trace_windows: Vec<TraceCfg>,
    pub msg_windows: Vec<MsgCfg>,
    pub stats_windows: Vec<StatsCfg>,
    pub graphics: Vec<GfxCfg>,
    pub data_windows: Vec<DataCfg>,
    pub tx: Vec<TxCfg>,
    pub counters: Counters,
    pub recent_dbc: Vec<String>,
    pub recent_log: Vec<String>,
    pub desktops: Vec<DesktopCfg>,
    pub active_desktop: usize,
    pub spec: SpecCfg,
    pub triggers: Vec<TriggerCfg>,
}

/// The version of a project file that names none.
pub fn one_default_u32() -> (r: u32)
    ensures
        r == 1,
{
    1
}

/// What a panel that a file does not name does: it is shown.
pub fn true_default() -> (r: bool)
    ensures
        r,
{
    true
}

/// The text rate of a file that names none.
pub fn ten_default() -> (r: u32)
    ensures
        r == 10,
{
    10
}

pub fn default_bitrate() -> (r: u32)
    ensures
        r == channel::DEFAULT_BITRATE_KBPS,
{
    channel::DEFAULT_BITRATE_KBPS
}

pub fn default_fd_data_bitrate() -> (r: u32)
    ensures
        r == channel::DEFAULT_FD_DATA_KBPS,
{
    channel::DEFAULT_FD_DATA_KBPS
}

/// The period of an entry that names none.
pub fn cycle_default() -> (r: u64)
    ensures
        r == 100_000,
{
    100_000
}

pub fn tolerance_default() -> (r: u64)
    ensures
        r == TOLERANCE_PERCENT,
{
    TOLERANCE_PERCENT
}

pub fn grace_default() -> (r: u64)
    ensures
        r == GRACE_CYCLES,
{
    GRACE_CYCLES
}

impl Default for SpecCfg {
    fn default() -> (c: SpecCfg)
        ensures
            c == (SpecCfg {
                tolerance_percent: TOLERANCE_PERCENT,
                grace_cycles: GRACE_CYCLES,
            }),
    {
        SpecCfg { tolerance_percent: tolerance_default(), grace_cycles: grace_default() }
    }
}

/// A database path as a project stores it: relative to the project's directory where it
/// lies below it, so that the folder can be moved; anything else as it is. `p` is an
/// absolute path, or one that has no absolute form.
pub fn relativize(p: &str, base: &str, style: PathStyle) -> (r: String)
    ensures
        r@ == paths::relative_path(style, p@, base@),
{
    paths::relative(style, p, base)
}

/// A stored path as it is opened: a relative one below the project's directory, where
/// the file stands there; anything else as it is. `found` is that file's path.
pub fn resolve_dbc(p: &str, found: Option<String>, style: PathStyle) -> (r: String)
    ensures
        r@ == (if !paths::is_absolute_path(style, p@) && found is Some {
            (found->0)@
        } else {
            p@
        }),
{
    if !paths::is_absolute(style, p) {
        match found {
            Some(f) => {
                return f;
            },
            None => {},
        }
    }
    p.to_owned()
}

/// The names of the nodes declared as simulated.
pub open spec fn simulated_names(roles: Seq<RoleEntry>, n: int) -> Seq<Seq<char>>
    decreases n,
{
    if n <= 0 {
        Seq::empty()
    } else {
        let before = simulated_names(roles, n - 1);
        if roles[n - 1].role == NodeRole::Simulated {
            before.push(roles[n - 1].node@)
        } else {
            before
        }
    }
}

fn names_of_simulated(roles: &Vec<RoleEntry>) -> (r: Vec<String>)
    ensures
        text::views(r@) == simulated_names(roles@, roles@.len() as int),
{
    let mut r: Vec<String> = Vec::new();
    assert(text::views(r@) =~= Seq::empty());
    for i in 0..roles.len()
        invariant
            text::views(r@) == simulated_names(roles@, i as int),
    {
        match roles[i].role {
            NodeRole::Simulated => {
                let ghost before = r@;
                r.push(roles[i].node.clone());
                assert(text::views(r@) =~= text::views(before).push(roles@[i as int].node@));
            },
            NodeRole::Absent => {},
        }
    }
    r
}

/// A bus's primary database path; empty where it has none.
pub open spec fn primary_path(c: Channel) -> Seq<char> {
    if c.dbc_paths@.len() > 0 {
        c.dbc_paths@[0]@
    } else {
        Seq::empty()
    }
}

/// The saved form of a bus. In a project the path is stored relative to it.
pub open spec fn is_channel_cfg(
    c: Channel,
    absolute: Seq<char>,
    base: Option<Seq<char>>,
    style: PathStyle,
    cfg: ChannelCfg,
) -> bool {
    &&& cfg.name == c.name
    &&& cfg.dbc_path@ == (match base {
        Some(b) => paths::relative_path(style, absolute, b),
        None => primary_path(c),
    })
    &&& text::views(cfg.sim_nodes@) == simulated_names(
        c.node_roles@,
        c.node_roles@.len() as int,
    )
    &&& cfg.bitrate_kbps == c.bitrate_kbps
    &&& cfg.fd_data_kbps == c.fd_data_kbps
}

fn channel_cfg(c: &Channel, absolute: &str, base: Option<&str>, style: PathStyle) -> (cfg:
    ChannelCfg)
    ensures
        is_channel_cfg(
            *c,
            absolute@,
            match base {
                Some(b) => Some(b@),
                None => None,
            },
            style,
            cfg,
        ),
{
    proof {
        reveal_strlit("");
    }
    let dbc_path: String = match base {
        Some(b) => relativize(absolute, b, style),
        None => if c.dbc_paths.len() > 0 {
            c.dbc_paths[0].clone()
        } else {
            String::new()
        },
    };
    ChannelCfg {
        name: c.name.clone(),
        dbc_path,
        sim_nodes: names_of_simulated(&c.node_roles),
        bitrate_kbps: c.bitrate_kbps,
        fd_data_kbps: c.fd_data_kbps,
    }
}

pub open spec fn is_trace_cfg(w: TraceWin, c: TraceCfg) -> bool {
    &&& c.name == w.name
    &&& c.opened == w.opened
    &&& c.scope == w.scope
    &&& c.manual@ == w.manual@
    &&& c.filter == w.filter
    &&& c.dir == w.dir
    &&& c.dbc_only == w.dbc_only
}

pub open spec fn is_msg_cfg(w: MsgWin, c: MsgCfg) -> bool {
    &&& c.name == w.name
    &&& c.opened == w.opened
    &&& c.scope == w.scope
    &&& c.manual@ == w.manual@
    &&& c.filter == w.filter
    &&& c.dbc_only == w.dbc_only
}

pub open spec fn is_stats_cfg(w: StatsWin, c: StatsCfg) -> bool {
    &&& c.name == w.name
    &&& c.opened == w.opened
    &&& c.scope == w.scope
    &&& c.manual@ == w.manual@
}

/// The saved form of one signal.
pub open spec fn is_signal_cfg(s: GfxSignal, c: SignalCfg) -> bool {
    &&& c.ch == s.ch
    &&& c.id == s.id
    &&& c.signal == s.signal
    &&& c.visible == s.visible
    &&& c.y_mode == s.y_mode.code()
}

pub open spec fn are_signal_cfgs(signals: Seq<GfxSignal>, cfgs: Seq<SignalCfg>) -> bool {
    &&& cfgs.len() == signals.len()
    &&& forall|i: int|
        0 <= i < signals.len() ==> is_signal_cfg(signals[i], #[trigger] cfgs[i])
}

pub fn sig_cfgs(signals: &Vec<GfxSignal>) -> (r: Vec<SignalCfg>)
    ensures
        are_signal_cfgs(signals@, r@),
{
    let mut r: Vec<SignalCfg> = Vec::new();
    for i in 0..signals.len()
        invariant
            r@.len() == i,
            forall|k: int| 0 <= k < i ==> is_signal_cfg(signals@[k], #[trigger] r@[k]),
    {
        r.push(
            SignalCfg {
                ch: signals[i].ch,
                id: signals[i].id,
                signal: signals[i].signal.clone(),
                visible: signals[i].visible,
                y_mode: signals[i].y_mode.to_u8(),
            },
        );
    }
    r
}

/// The signal of a saved form; an unknown axis mode is Auto.
pub open spec fn signal_of(c: SignalCfg) -> GfxSignal {
    GfxSignal {
        ch: c.ch,
        id: c.id,
        signal: c.signal,
        visible: c.visible,
        y_mode: YMode::of_code(c.y_mode),
    }
}

pub open spec fn signals_of(cfgs: Seq<SignalCfg>) -> Seq<GfxSignal> {
    Seq::new(cfgs.len(), |i: int| signal_of(cfgs[i]))
}

pub fn sig_keys(cfgs: Vec<SignalCfg>) -> (r: Vec<GfxSignal>)
    ensures
        r@ == signals_of(cfgs@),
{
    let ghost all = cfgs@;
    let mut r: Vec<GfxSignal> = Vec::new();
    for c in it: cfgs
        invariant
            it.seq() == all,
            r@ == signals_of(all).subrange(0, it.index() as int),
    {
        assert(c == all[it.index() as int]);
        r.push(
            GfxSignal {
                ch: c.ch,
                id: c.id,
                signal: c.signal,
                visible: c.visible,
                y_mode: YMode::from_u8(c.y_mode),
            },
        );
        assert(r@ =~= signals_of(all).subrange(0, it.index() + 1));
    }
    assert(r@ =~= signals_of(all));
    r
}

pub open spec fn is_gfx_cfg(g: GraphicsWindow, c: GfxCfg) -> bool {
    &&& c.name == g.name
    &&& c.opened == g.opened
    &&& are_signal_cfgs(g.signals@, c.signals@)
    &&& c.time_window_s == g.time_window_s
    &&& c.stacked == g.stacked
    &&& c.show_cursor == g.show_cursor
    &&& c.zoom_enabled == g.zoom_enabled
    &&& c.show_markers == g.show_markers
}

pub open spec fn is_data_cfg(d: DataWindow, c: DataCfg) -> bool {
    &&& c.name == d.name
    &&& c.opened == d.opened
    &&& are_signal_cfgs(d.signals@, c.signals@)
}

/// The saved form of one value source.
pub open spec fn is_src_cfg(s: ValueSrc, c: SrcCfg) -> bool {
    &&& c.name == s.name
    &&& c.kind == s.kind.code()
    &&& c.lo == s.lo
    &&& c.hi == s.hi
    &&& c.period_us == s.period_us
    &&& c.phase_us == s.phase_us
    &&& c.seq@ == s.seq@
    &&& c.seed == s.seed
    &&& c.redraw_us == s.redraw_us
}

pub fn src_cfg(s: &ValueSrc) -> (c: SrcCfg)
    ensures
        is_src_cfg(*s, c),
{
    SrcCfg {
        name: s.name.clone(),
        kind: s.kind.to_u8(),
        lo: s.lo,
        hi: s.hi,
        period_us: s.period_us,
        phase_us: s.phase_us,
        seq: copy_words(&s.seq),
        seed: s.seed,
        redraw_us: s.redraw_us,
    }
}

/// The value source of a saved form; nothing for an unknown kind.
pub open spec fn source_of(c: SrcCfg) -> Option<ValueSrc> {
    match SrcKind::of_code(c.kind) {
        Some(kind) => Some(
            ValueSrc {
                name: c.name,
                kind,
                lo: c.lo,
                hi: c.hi,
                period_us: c.period_us,
                phase_us: c.phase_us,
                seq: c.seq,
                seed: c.seed,
                redraw_us: c.redraw_us,
            },
        ),
        None => None,
    }
}

pub fn value_src(c: SrcCfg) -> (r: Option<ValueSrc>)
    ensures
        r == source_of(c),
{
    match SrcKind::from_u8(c.kind) {
        Some(kind) => Some(
            ValueSrc {
                name: c.name,
                kind,
                lo: c.lo,
                hi: c.hi,
                period_us: c.period_us,
                phase_us: c.phase_us,
                seq: c.seq,
                seed: c.seed,
                redraw_us: c.redraw_us,
            },
        ),
        None => None,
    }
}

/// The saved form of one generator entry.
pub open spec fn is_tx_cfg(t: TxMsg, c: TxCfg) -> bool {
    &&& c.channel == t.channel
    &&& c.id == t.id
    &&& c.active == t.active
    &&& c.data_text == t.data_text
    &&& c.data@ == t.data@.subrange(0, t.len as int)
    &&& c.cycle_us == t.cycle_us
    &&& c.fd == t.flags.has(FrameFlags::fd())
    &&& c.srcs@.len() == t.srcs@.len()
    &&& forall|i: int|
        0 <= i < t.srcs@.len() ==> is_src_cfg(t.srcs@[i], #[trigger] c.srcs@[i])
}

fn tx_cfg(t: &TxMsg) -> (c: TxCfg)
    requires
        t.len <= 64,
    ensures
        is_tx_cfg(*t, c),
{
    let mut data: Vec<u8> = Vec::new();
    for i in 0..t.len as usize
        invariant
            t.len <= 64,
            data@ == t.data@.subrange(0, i as int),
    {
        data.push(t.data[i]);
        assert(data@ =~= t.data@.subrange(0, i + 1));
    }
    let mut srcs: Vec<SrcCfg> = Vec::new();
    for i in 0..t.srcs.len()
        invariant
            srcs@.len() == i,
            forall|k: int| 0 <= k < i ==> is_src_cfg(t.srcs@[k], #[trigger] srcs@[k]),
    {
        srcs.push(src_cfg(&t.srcs[i]));
    }
    TxCfg {
        channel: t.channel,
        id: t.id,
        active: t.active,
        data_text: t.data_text.clone(),
        data,
        cycle_us: t.cycle_us,
        fd: t.flags.contains(FrameFlags::fd()),
        srcs,
    }
}

/// The panels that a saved desktop shows.
pub open spec fn panels_of(c: DesktopCfg) -> Panels {
    Panels {
        show_tx: c.show_tx,
        show_network: c.show_network,
        show_measurement: c.show_measurement,
        show_buses: c.show_buses,
        show_triggers: c.show_triggers,
        show_bus_stats: c.show_bus_stats,
        show_spec: c.show_spec,
        show_id_filter: c.show_id_filter,
    }
}

/// The open windows of a desktop with the codes of their kinds.
pub open spec fn coded_windows(open: Seq<(WindowKind, String)>) -> Seq<(u8, String)> {
    Seq::new(open.len(), |i: int| (open[i].0.code(), open[i].1))
}

/// The saved form of a desktop.
pub open spec fn is_desktop_cfg(d: Desktop, name: String, c: DesktopCfg) -> bool {
    &&& c.name == name
    &&& c.layout == d.layout
    &&& c.open@ == coded_windows(d.open_windows@)
    &&& panels_of(c) == d.panels
}

pub fn desktop_cfg(d: &Desktop) -> (c: DesktopCfg)
    ensures
        is_desktop_cfg(*d, d.name, c),
{
    let mut open: Vec<(u8, String)> = Vec::new();
    for i in 0..d.open_windows.len()
        invariant
            open@ == coded_windows(d.open_windows@).subrange(0, i as int),
    {
        open.push((d.open_windows[i].0.to_u8(), d.open_windows[i].1.clone()));
        assert(open@ =~= coded_windows(d.open_windows@).subrange(0, i + 1));
    }
    assert(open@ =~= coded_windows(d.open_windows@));
    DesktopCfg {
        name: d.name.clone(),
        layout: d.layout.clone(),
        open,
        show_tx: d.panels.show_tx,
        show_network: d.panels.show_network,
        show_measurement: d.panels.show_measurement,
        show_buses: d.panels.show_buses,
        show_triggers: d.panels.show_triggers,
        show_bus_stats: d.panels.show_bus_stats,
        show_spec: d.panels.show_spec,
        show_id_filter: d.panels.show_id_filter,
    }
}

/// The saved form of a rule.
pub open spec fn is_trigger_cfg(t: Trigger, c: TriggerCfg) -> bool {
    &&& match t.cond {
        TriggerCond::SignalCross { ch, id, ext, signal, threshold, rising } => {
            &&& c.kind == 0
            &&& c.ch == ch
            &&& c.id == id
            &&& c.signal == signal
            &&& c.threshold == threshold
            &&& c.rising == rising
        },
        TriggerCond::IdPresent { ch, id } => {
            &&& c.kind == 1
            &&& c.ch == ch
            &&& c.id == id
            &&& c.signal@.len() == 0
            &&& c.threshold == 0
            &&& !c.rising
        },
        TriggerCond::ErrorFrame { ch } => {
            &&& c.kind == 2
            &&& c.ch == ch
            &&& c.id == 0
            &&& c.signal@.len() == 0
            &&& c.threshold == 0
            &&& !c.rising
        },
        TriggerCond::CycleTimeout { ch, id } => {
            &&& c.kind == 3
            &&& c.ch == ch
            &&& c.id == id
            &&& c.signal@.len() == 0
            &&& c.threshold == 0
            &&& !c.rising
        },
        TriggerCond::SysVar { key, threshold, rising } => {
            &&& c.kind == 4
            &&& c.ch == 0
            &&& c.id == 0
            &&& c.signal == key
            &&& c.threshold == threshold
            &&& c.rising == rising
        },
    }
    &&& c.action == action_code(t.action)
    &&& (c.send_ch, c.send_id) == send_target(t.action)
    &&& c.enabled == t.enabled
}

pub open spec fn action_code(a: TriggerAction) -> u8 {
    match a {
        TriggerAction::StartRecording => 0,
        TriggerAction::StopRecording => 1,
        TriggerAction::Send { .. } => 2,
        TriggerAction::InsertMarker => 3,
        TriggerAction::ClearTrace => 4,
    }
}

pub open spec fn send_target(a: TriggerAction) -> (u8, u32) {
    match a {
        TriggerAction::Send { ch, id } => (ch, id),
        _ => (0, 0),
    }
}

fn code_action(a: TriggerAction) -> (r: (u8, u8, u32))
    ensures
        r.0 == action_code(a),
        (r.1, r.2) == send_target(a),
{
    match a {
        TriggerAction::StartRecording => (0, 0, 0),
        TriggerAction::StopRecording => (1, 0, 0),
        TriggerAction::Send { ch, id } => (2, ch, id),
        TriggerAction::InsertMarker => (3, 0, 0),
        TriggerAction::ClearTrace => (4, 0, 0),
    }
}

fn trigger_cfg(t: &Trigger) -> (c: TriggerCfg)
    ensures
        is_trigger_cfg(*t, c),
{
    proof {
        reveal_strlit("");
    }
    let (action, send_ch, send_id): (u8, u8, u32) = code_action(t.action);
    let enabled: bool = t.enabled;
    match &t.cond {
        TriggerCond::SignalCross { ch, id, ext, signal, threshold, rising } => TriggerCfg {
            kind: 0,
            ch: *ch,
            id: *id,
            signal: signal.clone(),
            threshold: *threshold,
            rising: *rising,
            action,
            send_ch,
            send_id,
            enabled,
        },
        TriggerCond::IdPresent { ch, id } => TriggerCfg {
            kind: 1,
            ch: *ch,
            id: *id,
            signal: String::new(),
            threshold: 0,
            rising: false,
            action,
            send_ch,
            send_id,
            enabled,
        },
        TriggerCond::ErrorFrame { ch } => TriggerCfg {
            kind: 2,
            ch: *ch,
            id: 0,
            signal: String::new(),
            threshold: 0,
            rising: false,
            action,
            send_ch,
            send_id,
            enabled,
        },
        TriggerCond::CycleTimeout { ch, id } => TriggerCfg {
            kind: 3,
            ch: *ch,
            id: *id,
            signal: String::new(),
            threshold: 0,
            rising: false,
            action,
            send_ch,
            send_id,
            enabled,
        },
        TriggerCond::SysVar { key, threshold, rising } => TriggerCfg {
            kind: 4,
            ch: 0,
            id: 0,
            signal: key.clone(),
            threshold: *threshold,
            rising: *rising,
            action,
            send_ch,
            send_id,
            enabled,
        },
    }
}

/// The panels that the configuration shows.
pub open spec fn config_panels(c: Config) -> Panels {
    Panels {
        show_tx: c.show_tx,
        show_network: c.show_network,
        show_measurement: c.show_measurement,
        show_buses: c.show_buses,
        show_triggers: c.show_triggers,
        show_bus_stats: c.show_bus_stats,
        show_spec: c.show_spec,
        show_id_filter: c.show_id_filter,
    }
}

impl Config {
    /// The configuration holds the workspace. The active desktop is saved as the windows
    /// stand, under its own name: its stored state can lag behind.
    pub open spec fn is_of(
        self,
        app: App,
        base: Option<Seq<char>>,
        absolutes: Seq<String>,
        style: PathStyle,
    ) -> bool {
        &&& self.channels@.len() == app.core.channels@.len()
        &&& forall|i: int|
            0 <= i < self.channels@.len() ==> is_channel_cfg(
                app.core.channels@[i],
                absolutes[i]@,
                base,
                style,
                #[trigger] self.channels@[i],
            )
        &&& self.bus_counter == app.core.bus_counter
        &&& config_panels(self) == app.panels
        &&& self.replay_speed == app.replay_speed
        &&& self.text_rate_hz == app.text_rate_hz
        &&& self.trace_windows@.len() == app.trace_windows@.len()
        &&& forall|i: int|
            0 <= i < self.trace_windows@.len() ==> is_trace_cfg(
                app.trace_windows@[i],
                #[trigger] self.trace_windows@[i],
            )
        &&& self.msg_windows@.len() == app.msg_windows@.len()
        &&& forall|i: int|
            0 <= i < self.msg_windows@.len() ==> is_msg_cfg(
                app.msg_windows@[i],
                #[trigger] self.msg_windows@[i],
            )
        &&& self.stats_windows@.len() == app.stats_windows@.len()
        &&& forall|i: int|
            0 <= i < self.stats_windows@.len() ==> is_stats_cfg(
                app.stats_windows@[i],
                #[trigger] self.stats_windows@[i],
            )
        &&& self.graphics@.len() == app.graphics@.len()
        &&& forall|i: int|
            0 <= i < self.graphics@.len() ==> is_gfx_cfg(
                app.graphics@[i],
                #[trigger] self.graphics@[i],
            )
        &&& self.data_windows@.len() == app.data_windows@.len()
        &&& forall|i: int|
            0 <= i < self.data_windows@.len() ==> is_data_cfg(
                app.data_windows@[i],
                #[trigger] self.data_windows@[i],
            )
        &&& self.tx@.len() == app.core.tx_list@.len()
        &&& forall|i: int|
            0 <= i < self.tx@.len() ==> is_tx_cfg(app.core.tx_list@[i], #[trigger] self.tx@[i])
        &&& self.counters == app.counters
        &&& self.recent_dbc@ == app.recent_dbc@
        &&& self.recent_log@ == app.recent_log@
        &&& self.desktops@.len() == app.desktops@.len()
        &&& forall|i: int|
            0 <= i < self.desktops@.len() ==> if i == app.active_desktop {
                is_live_desktop(app, #[trigger] self.desktops@[i])
            } else {
                is_desktop_cfg(app.desktops@[i], app.desktops@[i].name, self.desktops@[i])
            }
        &&& self.active_desktop == app.active_desktop
        &&& self.spec == (SpecCfg {
            tolerance_percent: app.spec_tol_pct,
            grace_cycles: app.spec_grace,
        })
        &&& self.triggers@.len() == app.core.triggers@.len()
        &&& forall|i: int|
            0 <= i < self.triggers@.len() ==> is_trigger_cfg(
                app.core.triggers@[i],
                #[trigger] self.triggers@[i],
            )
    }

    /// The configuration of a workspace. `base` is the project's directory, where there
    /// is one, and `absolutes` are the absolute forms of the primary database paths.
    #[verifier::rlimit(40)]
    pub fn from_app(
        app: &App,
        base: Option<&str>,
        absolutes: &Vec<String>,
        style: PathStyle,
    ) -> (c: Config)
        requires
            app.wf(),
            absolutes@.len() == app.core.channels@.len(),
        ensures
            c.is_of(
                *app,
                match base {
                    Some(b) => Some(b@),
                    None => None,
                },
                absolutes@,
                style,
            ),
    {
        let ghost base_view: Option<Seq<char>> = match base {
            Some(b) => Some(b@),
            None => None,
        };
        let mut channels: Vec<ChannelCfg> = Vec::new();
        for i in 0..app.core.channels.len()
            invariant
                absolutes@.len() == app.core.channels@.len(),
                base_view == (match base {
                    Some(b) => Some(b@),
                    None => None,
                }),
                channels@.len() == i,
                forall|k: int|
                    0 <= k < i ==> is_channel_cfg(
                        app.core.channels@[k],
                        absolutes@[k]@,
                        base_view,
                        style,
                        #[trigger] channels@[k],
                    ),
        {
            channels.push(channel_cfg(&app.core.channels[i], absolutes[i].as_str(), base, style));
        }
        let trace_windows: Vec<TraceCfg> = trace_cfgs(&app.trace_windows);
        let msg_windows: Vec<MsgCfg> = msg_cfgs(&app.msg_windows);
        let stats_windows: Vec<StatsCfg> = stats_cfgs(&app.stats_windows);
        let graphics: Vec<GfxCfg> = gfx_cfgs(&app.graphics);
        let data_windows: Vec<DataCfg> = data_cfgs(&app.data_windows);
        let mut tx: Vec<TxCfg> = Vec::new();
        for i in 0..app.core.tx_list.len()
            invariant
                app.wf(),
                tx@.len() == i,
                forall|k: int|
                    0 <= k < i ==> is_tx_cfg(app.core.tx_list@[k], #[trigger] tx@[k]),
        {
            assert(app.core.tx_list@[i as int].len <= 64);
            tx.push(tx_cfg(&app.core.tx_list[i]));
        }
        let desktops: Vec<DesktopCfg> = desktop_cfgs(app);
        let mut triggers: Vec<TriggerCfg> = Vec::new();
        for i in 0..app.core.triggers.len()
            invariant
                triggers@.len() == i,
                forall|k: int|
                    0 <= k < i ==> is_trigger_cfg(
                        app.core.triggers@[k],
                        #[trigger] triggers@[k],
                    ),
        {
            triggers.push(trigger_cfg(&app.core.triggers[i]));
        }
        Config {
            channels,
            bus_counter: app.core.bus_counter,
            show_tx: app.panels.show_tx,
            show_network: app.panels.show_network,
            show_measurement: app.panels.show_measurement,
            show_buses: app.panels.show_buses,
            show_triggers: app.panels.show_triggers,
            show_bus_stats: app.panels.show_bus_stats,
            show_spec: app.panels.show_spec,
            show_id_filter: app.panels.show_id_filter,
            replay_speed: app.replay_speed,
            text_rate_hz: app.text_rate_hz,
            trace_windows,
            msg_windows,
            stats_windows,
            graphics,
            data_windows,
            tx,
            counters: app.counters,
            recent_dbc: text::copy_names(&app.recent_dbc),
            recent_log: text::copy_names(&app.recent_log),
            desktops,
            active_desktop: app.active_desktop,
            spec: SpecCfg {
                tolerance_percent: app.spec_tol_pct,
                grace_cycles: app.spec_grace,
            },
            triggers,
        }
    }

    /// Resolves the database paths against the project's directory. `found` holds, for
    /// each bus, the path below the directory where the file stands there.
    pub fn resolve_paths(&mut self, found: Vec<Option<String>>, style: PathStyle)
        requires
            found@.len() == old(self).channels@.len(),
        ensures
            final(self).channels@.len() == old(self).channels@.len(),
            forall|i: int|
                0 <= i < found@.len() ==> is_resolved(
                    old(self).channels@[i],
                    found@[i],
                    style,
                    #[trigger] final(self).channels@[i],
                ),
            *final(self) == (Config { channels: final(self).channels, ..*old(self) }),
    {
        let ghost all = found@;
        let total: usize = self.channels.len();
        let mut i: usize = 0;
        for f in it: found
            invariant
                it.seq() == all,
                all.len() == total,
                total == old(self).channels@.len(),
                i == it.index(),
                self.channels@.len() == total,
                *self == (Config { channels: self.channels, ..*old(self) }),
                forall|k: int|
                    0 <= k < i ==> is_resolved(
                        old(self).channels@[k],
                        all[k],
                        style,
                        #[trigger] self.channels@[k],
                    ),
                forall|k: int|
                    i <= k < total ==> #[trigger] self.channels@[k] == old(self).channels@[k],
        {
            assert(f == all[it.index() as int]);
            let path: String = resolve_dbc(self.channels[i].dbc_path.as_str(), f, style);
            let c: &mut ChannelCfg = &mut self.channels[i];
            c.dbc_path = path;
            i = i + 1;
        }
    }
}

/// A bus with its path resolved.
pub open spec fn is_resolved(
    was: ChannelCfg,
    found: Option<String>,
    style: PathStyle,
    now: ChannelCfg,
) -> bool {
    &&& now.dbc_path@ == (if !paths::is_absolute_path(style, was.dbc_path@) && found is Some {
        (found->0)@
    } else {
        was.dbc_path@
    })
    &&& now == (ChannelCfg { dbc_path: now.dbc_path, ..was })
}

/// The saved form of the arrangement as it stands, under the active desktop's name.
pub open spec fn is_live_desktop(app: App, c: DesktopCfg) -> bool {
    &&& c.name == app.desktops@[app.active_desktop as int].name
    &&& c.layout == app.layout_cache
    &&& c.open@ == coded_windows(app.open_windows_spec())
    &&& panels_of(c) == app.panels
}

fn desktop_cfgs(app: &App) -> (r: Vec<DesktopCfg>)
    requires
        app.wf(),
    ensures
        r@.len() == app.desktops@.len(),
        forall|i: int|
            0 <= i < r@.len() ==> if i == app.active_desktop {
                is_live_desktop(*app, #[trigger] r@[i])
            } else {
                is_desktop_cfg(app.desktops@[i], app.desktops@[i].name, r@[i])
            },
{
    let mut r: Vec<DesktopCfg> = Vec::new();
    for i in 0..app.desktops.len()
        invariant
            app.wf(),
            r@.len() == i,
            forall|k: int|
                0 <= k < i ==> if k == app.active_desktop {
                    is_live_desktop(*app, #[trigger] r@[k])
                } else {
                    is_desktop_cfg(app.desktops@[k], app.desktops@[k].name, r@[k])
                },
    {
        if i == app.active_desktop {
            let snap: Desktop = app.desktop_snapshot();
            let mut live: DesktopCfg = desktop_cfg(&snap);
            live.name = app.desktops[i].name.clone();
            r.push(live);
        } else {
            r.push(desktop_cfg(&app.desktops[i]));
        }
    }
    r
}

fn trace_cfgs(windows: &Vec<TraceWin>) -> (r: Vec<TraceCfg>)
    ensures
        r@.len() == windows@.len(),
        forall|i: int| 0 <= i < r@.len() ==> is_trace_cfg(windows@[i], #[trigger] r@[i]),
{
    let mut r: Vec<TraceCfg> = Vec::new();
    for i in 0..windows.len()
        invariant
            r@.len() == i,
            forall|k: int| 0 <= k < i ==> is_trace_cfg(windows@[k], #[trigger] r@[k]),
    {
        let w: &TraceWin = &windows[i];
        r.push(
            TraceCfg {
                name: w.name.clone(),
                opened: w.opened,
                scope: w.scope,
                manual: copy_set(&w.manual),
                filter: w.filter.clone(),
                dir: w.dir,
                dbc_only: w.dbc_only,
            },
        );
    }
    r
}

fn msg_cfgs(windows: &Vec<MsgWin>) -> (r: Vec<MsgCfg>)
    ensures
        r@.len() == windows@.len(),
        forall|i: int| 0 <= i < r@.len() ==> is_msg_cfg(windows@[i], #[trigger] r@[i]),
{
    let mut r: Vec<MsgCfg> = Vec::new();
    for i in 0..windows.len()
        invariant
            r@.len() == i,
            forall|k: int| 0 <= k < i ==> is_msg_cfg(windows@[k], #[trigger] r@[k]),
    {
        let w: &MsgWin = &windows[i];
        r.push(
            MsgCfg {
                name: w.name.clone(),
                opened: w.opened,
                scope: w.scope,
                manual: copy_set(&w.manual),
                filter: w.filter.clone(),
                dbc_only: w.dbc_only,
            },
        );
    }
    r
}

fn stats_cfgs(windows: &Vec<StatsWin>) -> (r: Vec<StatsCfg>)
    ensures
        r@.len() == windows@.len(),
        forall|i: int| 0 <= i < r@.len() ==> is_stats_cfg(windows@[i], #[trigger] r@[i]),
{
    let mut r: Vec<StatsCfg> = Vec::new();
    for i in 0..windows.len()
        invariant
            r@.len() == i,
            forall|k: int| 0 <= k < i ==> is_stats_cfg(windows@[k], #[trigger] r@[k]),
    {
        let w: &StatsWin = &windows[i];
        r.push(
            StatsCfg {
                name: w.name.clone(),
                opened: w.opened,
                scope: w.scope,
                manual: copy_set(&w.manual),
            },
        );
    }
    r
}

fn gfx_cfgs(windows: &Vec<GraphicsWindow>) -> (r: Vec<GfxCfg>)
    ensures
        r@.len() == windows@.len(),
        forall|i: int| 0 <= i < r@.len() ==> is_gfx_cfg(windows@[i], #[trigger] r@[i]),
{
    let mut r: Vec<GfxCfg> = Vec::new();
    for i in 0..windows.len()
        invariant
            r@.len() == i,
            forall|k: int| 0 <= k < i ==> is_gfx_cfg(windows@[k], #[trigger] r@[k]),
    {
        let g: &GraphicsWindow = &windows[i];
        r.push(
            GfxCfg {
                name: g.name.clone(),
                opened: g.opened,
                signals: sig_cfgs(&g.signals),
                time_window_s: g.time_window_s,
                stacked: g.stacked,
                show_cursor: g.show_cursor,
                zoom_enabled: g.zoom_enabled,
                show_markers: g.show_markers,
            },
        );
    }
    r
}

fn data_cfgs(windows: &Vec<DataWindow>) -> (r: Vec<DataCfg>)
    ensures
        r@.len() == windows@.len(),
        forall|i: int| 0 <= i < r@.len() ==> is_data_cfg(windows@[i], #[trigger] r@[i]),
{
    let mut r: Vec<DataCfg> = Vec::new();
    for i in 0..windows.len()
        invariant
            r@.len() == i,
            forall|k: int| 0 <= k < i ==> is_data_cfg(windows@[k], #[trigger] r@[k]),
    {
        let d: &DataWindow = &windows[i];
        r.push(
            DataCfg { name: d.name.clone(), opened: d.opened, signals: sig_cfgs(&d.signals) },
        );
    }
    r
}

} // verus!
