//! The commands that a frontend may give the bus, and their one handler.

use vstd::prelude::*;
use vstd::string::*;
use crate::app::Mode;
use crate::bus;
use crate::bus::BusCore;
use crate::bus_ingest;
use crate::bus_ingest::signal_meta;
use crate::bus_nodes;
use crate::bus_nodes::HwOpen;
use crate::bus_run;
use crate::bus_run::{BusAction, LogRead, OpenedLog};
use crate::bus_types;
use crate::bus_types::{qualify, BlockCfg, Double, HwDriver, NodeCfg, Recorder, SysVarDef};
use crate::can::frame::{CanFrame, FrameFlags};
use crate::channel;
use crate::channel::{NodeRole, RoleEntry};
use crate::dbc_merge::FileText;
use crate::generator::TxMsg;
use crate::observe::SigKey;
use crate::observers;
use crate::sim::ValueSrc;
use crate::text;
use crate::trace;
use crate::triggers::{Trigger, TriggerAction, TriggerCond};

verus! {

/// The least and most frames that the trace may be told to keep.
pub const TRACE_LIMIT_MIN: usize = 1_000;

pub const TRACE_LIMIT_MAX: usize = 5_000_000;

/// The most context frames around a trigger.
pub const CONTEXT_FRAMES_MAX: usize = 32_768;

/// The least and most markers kept.
pub const MARKER_CAP_MIN: usize = 8;

pub const MARKER_CAP_MAX: usize = 65_536;

/// What a frontend may ask the bus to do: one variant per transport action. What
/// reading a file or opening a device gave comes with the command that needs it.
#[allow(inconsistent_fields)]
pub enum BusCommand {
    /// Fresh virtual run: blank every run-scored counter, measure against the wall
    /// clock. `logs` holds what was read of each replay block's log, `opened` how
    /// opening the record file went.
    StartVirtual { logs: Vec<LogRead>, opened: Result<String, String> },
    /// Stop measuring and close the recorder.
    Stop,
    /// Freeze or unfreeze the trace views.
    SetTracePaused(bool),
    /// Toggle recording. While stopped, the file is created by the next start.
    ToggleRecord { opened: Result<String, String> },
    /// Clears the level latch of every appearance-type condition.
    RearmTriggers,
    /// Blanks the trace view; everything else keeps running.
    ClearTrace,
    /// Resets the per-message counters. Load, spec memory and trace stay.
    ClearAggregates,
    /// Select the bus kind the next start will run.
    SetRunMode(Mode),
    /// Add a bus with the sample database, load it, and pre-populate its generator.
    AddChannel { file: Result<FileText, String> },
    /// Remove bus `ch` and remap every channel-indexed reference one step down.
    RemoveChannel { ch: usize },
    /// Declare the role of a database node.
    SetNodeRole { ch: u8, node: String, role: NodeRole },
    /// Replay-speed multiplier applied to the log source.
    SetReplaySpeed(u64),
    /// Move the replay playhead; `landed` is where the source came to stand.
    SeekReplay { landed: Option<u64>, line: String },
    SetEntryActive { ch: u8, id: u32, on: bool },
    SetEntryFd { ch: u8, id: u32, fd: bool },
    SetEntryCycle { ch: u8, id: u32, cycle_us: u64 },
    SetEntryHex { ch: u8, id: u32, typed: String },
    RemoveEntry { ch: u8, id: u32 },
    AddEntry { ch: u8, id: u32 },
    SetEntrySource { ch: u8, id: u32, src: ValueSrc },
    ClearEntrySource { ch: u8, id: u32, name: String },
    /// Write a raw value into the base payload and pin that signal.
    PinEntrySignal { ch: u8, id: u32, name: String, raw: Option<u64> },
    /// Start caching one signal.
    Subscribe { key: SigKey },
    Unsubscribe { key: SigKey },
    /// Replay the log at `path`, opened as `opened`.
    StartReplay { path: String, speed: String, opened: Result<OpenedLog, String> },
    /// Resume a scrubbed replay in place.
    ResumeReplay { speed: String },
    /// Static per-bus declarations.
    SetChannelConfig {
        ch: u8,
        name: Option<String>,
        dbc_path: Option<String>,
        bitrate_kbps: Option<u32>,
        fd_data_kbps: Option<u32>,
        node_roles: Option<Vec<RoleEntry>>,
    },
    /// Attach the listed databases to the bus and merge them.
    LoadDbc { ch: u8, paths: Vec<String>, files: Vec<Result<FileText, String>> },
    SetBusCounter(usize),
    SetRecordPath(String),
    /// Id whitelist for recorded files; an empty list records everything.
    SetRecordFilter { ids: Vec<(u32, bool)> },
    /// The trace ring's retention in frames, clamped.
    SetTraceLimit { frames: usize },
    SetHardwareChannel {
        bus: u8,
        driver: HwDriver,
        adapter: i32,
        kbps: u32,
        fd_data_kbps: Option<u32>,
        opened: HwOpen,
    },
    DetachHardware { bus: u8 },
    SetFrWatch {
        channel_index: Option<i32>,
        fibex_path: String,
        attached: Result<(), String>,
    },
    /// Trigger-recording context, clamped. Any subset may be set.
    SetRunLimits {
        pre_frames: Option<usize>,
        post_frames: Option<u32>,
        marker_cap: Option<usize>,
    },
    AddNode { name: String, channel: u8, attached: Option<(u8, String)> },
    RemoveNode { id: u64 },
    SetNodeName { id: u64, name: String },
    SetNodeSource { id: u64, source: String },
    SetNodeEnabled { id: u64, on: bool },
    SetNodes { nodes: Vec<NodeCfg> },
    AddReplayBlock { cfg: BlockCfg },
    SetReplayBlock { id: u64, cfg: BlockCfg, log: LogRead },
    RemoveReplayBlock { id: u64 },
    SetReplayBlockEnabled { id: u64, on: bool, log: LogRead },
    SetReplayBlocks { blocks: Vec<BlockCfg>, logs: Vec<LogRead> },
    /// Ingest a whole log once for browsing.
    ScanLog {
        path: String,
        tol_pct: u64,
        grace: u64,
        opened: Result<OpenedLog, String>,
        frames: Vec<CanFrame>,
    },
    SetEntryConfig {
        ch: u8,
        id: u32,
        active: bool,
        cycle_us: u64,
        fd: bool,
        flags: Option<FrameFlags>,
        data_text: Option<String>,
        srcs: Vec<ValueSrc>,
    },
    /// Decode the frames of a span into the signal caches.
    Backfill { from_us: u64, to_us: u64, stride_us: u64, frames: Vec<CanFrame>, capped: bool },
    /// Blank every bus's database, the generator and the subscriptions.
    ClearDatabases,
    /// Every row of the specification report forgets that it fired.
    ClearSpec,
    /// Transmit a single frame from a generator entry on the next step of a
    /// running bus; a request made while stopped is dropped.
    SendNow { ch: u8, id: u32 },
    SetTriggers(Vec<Trigger>),
    AddTrigger { cond: TriggerCond, action: TriggerAction },
    RemoveTrigger { index: usize },
    SetTriggerEnabled { index: usize, on: bool },
    EditTrigger { index: usize, cond: TriggerCond, action: TriggerAction },
    DefineSysVar(SysVarDef),
    DeleteSysVar { namespace: String, name: String },
    /// Set a system variable's live value, held in its bounds.
    SetSysVar { namespace: String, name: String, value: Double },
    ClearWrite,
    /// Connects or parks every hardware attachment.
    SetBusMode { live: bool },
}

/// `n` held between two bounds.
pub open spec fn clamped(n: int, low: int, high: int) -> int {
    if n < low {
        low
    } else if n > high {
        high
    } else {
        n
    }
}

fn clamp(n: usize, low: usize, high: usize) -> (r: usize)
    ensures
        r == clamped(n as int, low as int, high as int),
{
    if n < low {
        low
    } else if n > high {
        high
    } else {
        n
    }
}

/// The status line of a bus mode.
pub open spec fn mode_status(live: bool) -> Seq<char> {
    if live {
        "总线模式：Real bus——挂接的硬件已上线（RX 进总线，定向 TX 出线）"@
    } else {
        "总线模式：Simulated——硬件挂接保留但已下线（纯仿真）"@
    }
}

fn undefined_line(key: &str) -> (s: String)
    ensures
        s@ == "[sysvar] 未定义: \""@ + key@ + "\""@,
{
    let mut s: String = "[sysvar] 未定义: \"".to_owned();
    s.append(key);
    s.append("\"");
    s
}

/// A bus with a database asks the running scripts on it to look their names up
/// again.
pub open spec fn refreshes(core: BusCore, ch: int) -> Seq<BusAction> {
    if 0 <= ch < core.channels@.len() && ch <= u8::MAX && core.channels@[ch].dbc is Some {
        seq![BusAction::RefreshNodes(ch as u8)]
    } else {
        Seq::empty()
    }
}

/// Asks for the refresh that a loaded database makes due.
pub(crate) fn ask_refresh(core: &BusCore, ch: usize) -> (actions: Vec<BusAction>)
    ensures
        actions@ == refreshes(*core, ch as int),
{
    let mut actions: Vec<BusAction> = Vec::new();
    if ch < core.channels.len() && ch <= 255 {
        if core.channels[ch].dbc.is_some() {
            actions.push(BusAction::RefreshNodes(ch as u8));
        }
    }
    assert(actions@ =~= refreshes(*core, ch as int));
    actions
}

impl BusCore {
    /// What a command needs of the state: a count that can still go up, what was
    /// read for as many files as are named, recorded times that fit.
    pub open spec fn accepts(self, cmd: BusCommand) -> bool {
        match cmd {
            BusCommand::StartVirtual { logs, .. } => bus_run::logs_fit(
                bus_run::rewound_blocks(self.replay_blocks@),
                self.channels@,
                logs@,
            ),
            BusCommand::AddChannel { .. } => self.bus_counter < usize::MAX,
            BusCommand::LoadDbc { paths, files, .. } => files@.len() == paths@.len(),
            BusCommand::AddNode { .. } => self.node_counter < u64::MAX,
            BusCommand::SetNodes { nodes } => self.node_counter + nodes@.len() <= u64::MAX,
            BusCommand::AddReplayBlock { .. } => self.block_counter < u64::MAX,
            BusCommand::SetReplayBlock { id, cfg, log } => {
                let k = bus_nodes::block_index(self.replay_blocks@, id, 0);
                k >= 0 && self.replay_blocks@[k].enabled ==> bus_run::log_fits(
                    BusCore::redeclared(self.replay_blocks@[k], cfg),
                    channel::table_on(self.channels@, cfg.channel),
                    log,
                )
            },
            BusCommand::SetReplayBlockEnabled { id, on, log } => {
                let k = bus_nodes::block_index(self.replay_blocks@, id, 0);
                k >= 0 && on ==> bus_run::log_fits(
                    self.replay_blocks@[k],
                    channel::table_on(self.channels@, self.replay_blocks@[k].channel),
                    log,
                )
            },
            BusCommand::SetReplayBlocks { blocks, logs } => {
                &&& self.block_counter + blocks@.len() <= u64::MAX
                &&& self.cfg_logs_fit(blocks@, logs@)
            },
            BusCommand::ScanLog { frames, .. } => bus_run::frames_fit(frames@),
            BusCommand::Backfill { frames, .. } => bus_run::frames_fit(frames@),
            _ => true,
        }
    }

    /// What a command on the run, its record and its counters does to the state, to the status
    /// line, and asks for.
    pub open spec fn is_run_handled(
        self,
        after: BusCore,
        cmd: BusCommand,
        before: Seq<char>,
        status: Seq<char>,
        actions: Seq<BusAction>,
    ) -> bool {
        let same = status == before;
        let none = actions.len() == 0;
        match cmd {
            BusCommand::StartVirtual { logs, opened } => self.is_virtual_started(
                after,
                logs@,
                opened,
                status,
                actions,
            ),
            BusCommand::Stop => {
                &&& after == (BusCore { measuring: false, nodes_dirty: true, ..self })
                &&& status == "stopped"@
                &&& actions == seq![BusAction::CloseRecorder] + BusCore::node_stops(self.nodes@)
            },
            BusCommand::SetTracePaused(on) => {
                &&& after == (BusCore { trace_paused: on, ..self })
                &&& same
                &&& none
            },
            BusCommand::ToggleRecord { opened } => self.is_record_toggled(
                after,
                opened,
                before,
                status,
                actions,
            ),
            BusCommand::RearmTriggers => {
                &&& after.triggers@ == bus_ingest::rearmed_all(self.triggers@)
                &&& after == (BusCore { triggers: after.triggers, ..self })
                &&& status == "re-armed "@ + text::decimal(
                    bus_nodes::latched_count(self.triggers@, self.triggers@.len() as int),
                ) + " latched trigger(s)"@
                &&& none
            },
            BusCommand::ClearTrace => {
                &&& self.is_trace_cleared(after)
                &&& status == "trace cleared"@
                &&& none
            },
            BusCommand::ClearAggregates => {
                &&& after.aggs.items@.len() == 0
                &&& after == (BusCore { aggs: after.aggs, ..self })
                &&& status == "cleared "@ + text::decimal(self.aggs.items@.len() as int)
                    + " message counter(s)"@
                &&& none
            },
            BusCommand::SetRunMode(mode) => {
                &&& after == (BusCore { run_mode: mode, ..self })
                &&& same
                &&& none
            },
            BusCommand::SetReplaySpeed(speed) => {
                &&& after == self
                &&& same
                &&& actions == seq![BusAction::SetSpeed(speed)]
            },
            BusCommand::SeekReplay { landed, line } => {
                &&& self.is_sought(after, landed, line@, before, status)
                &&& none
            },
            BusCommand::StartReplay { path, speed, opened } => self.is_replay_started(
                after,
                path@,
                speed@,
                opened,
                status,
                actions,
            ),
            BusCommand::ResumeReplay { speed } => {
                &&& after == (BusCore {
                    sim_prev_us: 0,
                    trace_paused: false,
                    paused_at_us: None,
                    measuring: true,
                    ..self
                })
                &&& status == "resumed at "@ + speed@ + "x"@
                &&& none
            },
            BusCommand::ScanLog { path, tol_pct, grace, opened, frames } => self.is_log_scanned(
                after,
                path@,
                tol_pct,
                grace,
                opened,
                frames@,
                status,
                actions,
            ),
            BusCommand::Backfill { from_us, to_us, stride_us, frames, capped } => {
                &&& self.is_backfilled(
                    after,
                    from_us,
                    to_us,
                    stride_us,
                    frames@,
                    capped,
                    before,
                    status,
                )
                &&& none
            },
            BusCommand::SetRecordPath(path) => {
                &&& after == (BusCore {
                    recorder: Recorder { record_path: path, ..self.recorder },
                    ..self
                })
                &&& same
                &&& none
            },
            BusCommand::SetRecordFilter { ids } => {
                &&& after == (BusCore { recorder: Recorder { ids, ..self.recorder }, ..self })
                &&& same
                &&& none
            },
            BusCommand::SetTraceLimit { frames } => {
                &&& after == (BusCore {
                    trace_limit: clamped(
                        frames as int,
                        TRACE_LIMIT_MIN as int,
                        TRACE_LIMIT_MAX as int,
                    ) as usize,
                    ..self
                })
                &&& same
                &&& none
            },
            BusCommand::SetRunLimits { pre_frames, post_frames, marker_cap } => {
                &&& after == (BusCore {
                    pre_frames: match pre_frames {
                        Some(n) => clamped(n as int, 0, CONTEXT_FRAMES_MAX as int) as usize,
                        None => self.pre_frames,
                    },
                    post_frames: match post_frames {
                        Some(n) => clamped(n as int, 0, CONTEXT_FRAMES_MAX as int) as u32,
                        None => self.post_frames,
                    },
                    marker_cap: match marker_cap {
                        Some(n) => clamped(
                            n as int,
                            MARKER_CAP_MIN as int,
                            MARKER_CAP_MAX as int,
                        ) as usize,
                        None => self.marker_cap,
                    },
                    ..self
                })
                &&& same
                &&& none
            },
            BusCommand::ClearSpec => {
                &&& after.monitor.rows@ == Map::<u64, crate::monitor::Latch>::empty()
                &&& after.monitor.seen == self.monitor.seen
                &&& after == (BusCore { monitor: after.monitor, ..self })
                &&& same
                &&& none
            },
            BusCommand::SendNow { ch, id } => {
                &&& after.injected@ == (if self.measuring {
                    self.injected@.push((ch, id))
                } else {
                    self.injected@
                })
                &&& after == (BusCore { injected: after.injected, ..self })
                &&& same
                &&& none
            },
            _ => false,
        }
    }

    pub open spec fn is_run_command(cmd: BusCommand) -> bool {
        match cmd {
            BusCommand::StartVirtual { .. }
                | BusCommand::Stop
                | BusCommand::SetTracePaused(_)
                | BusCommand::ToggleRecord { .. }
                | BusCommand::RearmTriggers
                | BusCommand::ClearTrace
                | BusCommand::ClearAggregates
                | BusCommand::SetRunMode(_)
                | BusCommand::SetReplaySpeed(_)
                | BusCommand::SeekReplay { .. }
                | BusCommand::StartReplay { .. }
                | BusCommand::ResumeReplay { .. }
                | BusCommand::ScanLog { .. }
                | BusCommand::Backfill { .. }
                | BusCommand::SetRecordPath(_)
                | BusCommand::SetRecordFilter { .. }
                | BusCommand::SetTraceLimit { .. }
                | BusCommand::SetRunLimits { .. }
                | BusCommand::ClearSpec
                | BusCommand::SendNow { .. } => true,
            _ => false,
        }
    }

    fn handle_run(&mut self, cmd: BusCommand, status: &mut String) -> (actions: Vec<BusAction>)
        requires
            old(self).wf(),
            old(self).accepts(cmd),
            BusCore::is_run_command(cmd),
        ensures
            final(self).wf(),
            old(self).is_run_handled(
                *final(self),
                cmd,
                old(status)@,
                final(status)@,
                actions@,
            ),
    {
        let none: Vec<BusAction> = Vec::new();
        match cmd {
            BusCommand::StartVirtual { logs, opened } => self.start_virtual(logs, opened, status),
            BusCommand::Stop => self.stop_bus(status),
            BusCommand::SetTracePaused(on) => {
                self.trace_paused = on;
                none
            },
            BusCommand::ToggleRecord { opened } => self.toggle_record(opened, status),
            BusCommand::RearmTriggers => {
                self.rearm_latched_triggers(status);
                none
            },
            BusCommand::ClearTrace => {
                self.clear_trace();
                *status = "trace cleared".to_owned();
                none
            },
            BusCommand::ClearAggregates => {
                self.clear_aggregates(status);
                none
            },
            BusCommand::SetRunMode(mode) => {
                self.run_mode = mode;
                none
            },
            BusCommand::SetReplaySpeed(speed) => {
                let mut actions: Vec<BusAction> = Vec::new();
                actions.push(BusAction::SetSpeed(speed));
                assert(actions@ =~= seq![BusAction::SetSpeed(speed)]);
                actions
            },
            BusCommand::SeekReplay { landed, line } => {
                self.seek_replay(landed, line, status);
                none
            },
            BusCommand::StartReplay { path, speed, opened } => self.start_replay(
                path.as_str(),
                speed.as_str(),
                opened,
                status,
            ),
            BusCommand::ResumeReplay { speed } => {
                self.resume_replay(speed.as_str(), status);
                none
            },
            BusCommand::ScanLog { path, tol_pct, grace, opened, frames } => self.scan_log(
                path.as_str(),
                tol_pct,
                grace,
                opened,
                &frames,
                status,
            ),
            BusCommand::Backfill { from_us, to_us, stride_us, frames, capped } => {
                self.backfill(from_us, to_us, stride_us, &frames, capped, status);
                none
            },
            BusCommand::SetRecordPath(path) => {
                self.recorder.record_path = path;
                none
            },
            BusCommand::SetRecordFilter { ids } => {
                self.recorder.ids = ids;
                none
            },
            BusCommand::SetTraceLimit { frames } => {
                self.trace_limit = clamp(frames, TRACE_LIMIT_MIN, TRACE_LIMIT_MAX);
                none
            },
            BusCommand::SetRunLimits { pre_frames, post_frames, marker_cap } => {
                if let Some(n) = pre_frames {
                    self.pre_frames = clamp(n, 0, CONTEXT_FRAMES_MAX);
                }
                if let Some(n) = post_frames {
                    self.post_frames = clamp(n as usize, 0, CONTEXT_FRAMES_MAX) as u32;
                }
                if let Some(n) = marker_cap {
                    self.marker_cap = clamp(n, MARKER_CAP_MIN, MARKER_CAP_MAX);
                }
                none
            },
            BusCommand::ClearSpec => {
                self.monitor.clear();
                none
            },
            BusCommand::SendNow { ch, id } => {
                if self.measuring {
                    self.injected.push((ch, id));
                }
                none
            },
            _ => none,
        }
    }

    /// What a command on the generator does to the state, to the status
    /// line, and asks for.
    pub open spec fn is_entry_handled(
        self,
        after: BusCore,
        cmd: BusCommand,
        before: Seq<char>,
        status: Seq<char>,
        actions: Seq<BusAction>,
    ) -> bool {
        let same = status == before;
        let none = actions.len() == 0;
        match cmd {
            BusCommand::SetEntryActive { ch, id, on } => {
                &&& self.is_entry_edited(
                    after,
                    ch,
                    id,
                    |t: TxMsg|
                        TxMsg {
                            active: on,
                            next_t_us: if on {
                                self.sim_t_us
                            } else {
                                t.next_t_us
                            },
                            ..t
                        },
                )
                &&& same
                &&& none
            },
            BusCommand::SetEntryFd { ch, id, fd } => {
                &&& self.is_entry_edited(
                    after,
                    ch,
                    id,
                    |t: TxMsg|
                        TxMsg {
                            flags: if fd {
                                FrameFlags::fd()
                            } else {
                                FrameFlags::none()
                            },
                            ..t
                        },
                )
                &&& same
                &&& none
            },
            BusCommand::SetEntryCycle { ch, id, cycle_us } => {
                &&& self.is_entry_edited(
                    after,
                    ch,
                    id,
                    |t: TxMsg| TxMsg { cycle_us, next_t_us: self.sim_t_us, ..t },
                )
                &&& same
                &&& none
            },
            BusCommand::SetEntryHex { ch, id, typed } => {
                &&& self.is_hex_set(after, ch, id, typed@)
                &&& same
                &&& none
            },
            BusCommand::RemoveEntry { ch, id } => {
                &&& self.entries_only(after)
                &&& after.tx_list@ == BusCore::without_entry(
                    self.tx_list@,
                    ch,
                    id,
                    self.tx_list@.len() as int,
                )
                &&& same
                &&& none
            },
            BusCommand::AddEntry { ch, id } => {
                &&& self.entries_only(after)
                &&& bus::is_entry_added(self.channels@, self.tx_list@, after.tx_list@, ch, id)
                &&& same
                &&& none
            },
            BusCommand::SetEntrySource { ch, id, src } => {
                &&& self.is_source_edited(
                    after,
                    ch,
                    id,
                    |s: Seq<ValueSrc>| bus::with_source(s, src),
                )
                &&& same
                &&& none
            },
            BusCommand::ClearEntrySource { ch, id, name } => {
                &&& self.is_source_edited(
                    after,
                    ch,
                    id,
                    |s: Seq<ValueSrc>| bus::without_source(s, name@, s.len() as int),
                )
                &&& same
                &&& none
            },
            BusCommand::PinEntrySignal { ch, id, name, raw } => {
                &&& self.is_pinned(after, ch, id, name@, raw)
                &&& same
                &&& none
            },
            BusCommand::SetEntryConfig {
                ch,
                id,
                active,
                cycle_us,
                fd,
                flags,
                data_text,
                srcs,
            } => {
                &&& self.is_configured(
                    after,
                    ch,
                    id,
                    active,
                    cycle_us,
                    match flags {
                        Some(f) => f,
                        None => if fd {
                            FrameFlags::fd()
                        } else {
                            FrameFlags::none()
                        },
                    },
                    observers::label_view(data_text),
                    srcs@,
                )
                &&& same
                &&& none
            },
            _ => false,
        }
    }

    pub open spec fn is_entry_command(cmd: BusCommand) -> bool {
        match cmd {
            BusCommand::SetEntryActive { .. }
                | BusCommand::SetEntryFd { .. }
                | BusCommand::SetEntryCycle { .. }
                | BusCommand::SetEntryHex { .. }
                | BusCommand::RemoveEntry { .. }
                | BusCommand::AddEntry { .. }
                | BusCommand::SetEntrySource { .. }
                | BusCommand::ClearEntrySource { .. }
                | BusCommand::PinEntrySignal { .. }
                | BusCommand::SetEntryConfig { .. } => true,
            _ => false,
        }
    }

    fn handle_entry(&mut self, cmd: BusCommand, status: &mut String) -> (actions: Vec<BusAction>)
        requires
            old(self).wf(),
            old(self).accepts(cmd),
            BusCore::is_entry_command(cmd),
        ensures
            final(self).wf(),
            old(self).is_entry_handled(
                *final(self),
                cmd,
                old(status)@,
                final(status)@,
                actions@,
            ),
    {
        let none: Vec<BusAction> = Vec::new();
        match cmd {
            BusCommand::SetEntryActive { ch, id, on } => {
                self.set_entry_active(ch, id, on);
                none
            },
            BusCommand::SetEntryFd { ch, id, fd } => {
                self.set_entry_fd(ch, id, fd);
                none
            },
            BusCommand::SetEntryCycle { ch, id, cycle_us } => {
                self.set_entry_cycle(ch, id, cycle_us);
                none
            },
            BusCommand::SetEntryHex { ch, id, typed } => {
                self.set_entry_hex(ch, id, typed.as_str());
                none
            },
            BusCommand::RemoveEntry { ch, id } => {
                self.remove_entry(ch, id);
                none
            },
            BusCommand::AddEntry { ch, id } => {
                self.add_generator_entry(ch, id);
                none
            },
            BusCommand::SetEntrySource { ch, id, src } => {
                self.set_entry_source(ch, id, src);
                none
            },
            BusCommand::ClearEntrySource { ch, id, name } => {
                self.clear_entry_source(ch, id, name.as_str());
                none
            },
            BusCommand::PinEntrySignal { ch, id, name, raw } => {
                self.pin_entry_signal(ch, id, name.as_str(), raw);
                none
            },
            BusCommand::SetEntryConfig {
                ch,
                id,
                active,
                cycle_us,
                fd,
                flags,
                data_text,
                srcs,
            } => {
                self.set_entry_config(ch, id, active, cycle_us, fd, flags, data_text, srcs);
                none
            },
            _ => none,
        }
    }

    /// What a command on the buses, their databases and their hardware does to the state, to the status
    /// line, and asks for.
    pub open spec fn is_bus_handled(
        self,
        after: BusCore,
        cmd: BusCommand,
        before: Seq<char>,
        status: Seq<char>,
        actions: Seq<BusAction>,
    ) -> bool {
        let same = status == before;
        let none = actions.len() == 0;
        match cmd {
            BusCommand::AddChannel { file } => {
                &&& self.is_channel_added(after, seq![file], before, status)
                &&& actions == refreshes(after, after.channels@.len() - 1)
            },
            BusCommand::RemoveChannel { ch } => {
                &&& self.is_channel_removed(after, ch, before, status)
                &&& none
            },
            BusCommand::SetNodeRole { ch, node, role } => {
                &&& self.is_role_set(after, ch, node@, role, before, status)
                &&& none
            },
            BusCommand::SetChannelConfig {
                ch,
                name,
                dbc_path,
                bitrate_kbps,
                fd_data_kbps,
                node_roles,
            } => {
                &&& self.is_channel_configured(
                    after,
                    ch,
                    name,
                    dbc_path,
                    bitrate_kbps,
                    fd_data_kbps,
                    node_roles,
                )
                &&& same
                &&& none
            },
            BusCommand::LoadDbc { ch, paths, files } => {
                &&& self.is_dbc_loaded(after, ch, paths, files@, before, status)
                &&& actions == refreshes(after, ch as int)
            },
            BusCommand::SetBusCounter(n) => {
                &&& after == (BusCore { bus_counter: n, ..self })
                &&& same
                &&& none
            },
            BusCommand::SetHardwareChannel {
                bus,
                driver,
                adapter,
                kbps,
                fd_data_kbps,
                opened,
            } => {
                &&& self.is_hardware_set(
                    after,
                    bus,
                    driver,
                    adapter,
                    kbps,
                    fd_data_kbps,
                    opened,
                    status,
                )
                &&& none
            },
            BusCommand::DetachHardware { bus } => {
                &&& after.hw.buses@ == self.hw.buses@.remove(bus_types::bus_key(bus))
                &&& after.hw == (bus_types::Hardware { buses: after.hw.buses, ..self.hw })
                &&& after == (BusCore { hw: after.hw, ..self })
                &&& status == "hardware detached from bus "@ + text::decimal(bus + 1)
                &&& none
            },
            BusCommand::SetFrWatch { channel_index, fibex_path, attached } => {
                &&& self.is_watch_set(after, channel_index, fibex_path, attached, status)
                &&& none
            },
            BusCommand::ClearDatabases => {
                &&& self.is_cleared_of_databases(after)
                &&& same
                &&& none
            },
            BusCommand::SetBusMode { live } => {
                &&& after == (BusCore {
                    hw: bus_types::Hardware { live, ..self.hw },
                    ..self
                })
                &&& status == mode_status(live)
                &&& none
            },
            BusCommand::Subscribe { key } => {
                &&& after.obs@ == self.obs@.subscribed(
                    key@,
                    bus_ingest::meta_of(self.channels@, key),
                )
                &&& after == (BusCore { obs: after.obs, ..self })
                &&& same
                &&& none
            },
            BusCommand::Unsubscribe { key } => {
                &&& after.obs@.subs == observers::without_sub(
                    self.obs@.subs,
                    key@,
                    self.obs@.subs.len() as int,
                )
                &&& after.obs.streams == self.obs.streams
                &&& after.obs.color_counter == self.obs.color_counter
                &&& after == (BusCore { obs: after.obs, ..self })
                &&& same
                &&& none
            },
            _ => false,
        }
    }

    pub open spec fn is_bus_command(cmd: BusCommand) -> bool {
        match cmd {
            BusCommand::AddChannel { .. }
                | BusCommand::RemoveChannel { .. }
                | BusCommand::SetNodeRole { .. }
                | BusCommand::SetChannelConfig { .. }
                | BusCommand::LoadDbc { .. }
                | BusCommand::SetBusCounter(_)
                | BusCommand::SetHardwareChannel { .. }
                | BusCommand::DetachHardware { .. }
                | BusCommand::SetFrWatch { .. }
                | BusCommand::ClearDatabases
                | BusCommand::SetBusMode { .. }
                | BusCommand::Subscribe { .. }
                | BusCommand::Unsubscribe { .. } => true,
            _ => false,
        }
    }

    fn handle_bus(&mut self, cmd: BusCommand, status: &mut String) -> (actions: Vec<BusAction>)
        requires
            old(self).wf(),
            old(self).accepts(cmd),
            BusCore::is_bus_command(cmd),
        ensures
            final(self).wf(),
            old(self).is_bus_handled(
                *final(self),
                cmd,
                old(status)@,
                final(status)@,
                actions@,
            ),
    {
        let none: Vec<BusAction> = Vec::new();
        match cmd {
            BusCommand::AddChannel { file } => {
                self.add_channel(file, status);
                let count: usize = self.channels.len();
                if count > 0 {
                    ask_refresh(self, count - 1)
                } else {
                    none
                }
            },
            BusCommand::RemoveChannel { ch } => {
                self.remove_channel(ch, status);
                none
            },
            BusCommand::SetNodeRole { ch, node, role } => {
                self.set_node_role(ch, node.as_str(), role, status);
                none
            },
            BusCommand::SetChannelConfig {
                ch,
                name,
                dbc_path,
                bitrate_kbps,
                fd_data_kbps,
                node_roles,
            } => {
                self.set_channel_config(
                    ch,
                    name,
                    dbc_path,
                    bitrate_kbps,
                    fd_data_kbps,
                    node_roles,
                );
                none
            },
            BusCommand::LoadDbc { ch, paths, files } => {
                self.load_dbc(ch, paths, &files, status);
                ask_refresh(self, ch as usize)
            },
            BusCommand::SetBusCounter(n) => {
                self.bus_counter = n;
                none
            },
            BusCommand::SetHardwareChannel {
                bus,
                driver,
                adapter,
                kbps,
                fd_data_kbps,
                opened,
            } => {
                self.set_hardware_channel(
                    bus,
                    driver,
                    adapter,
                    kbps,
                    fd_data_kbps,
                    opened,
                    status,
                );
                none
            },
            BusCommand::DetachHardware { bus } => {
                self.detach_hardware(bus, status);
                none
            },
            BusCommand::SetFrWatch { channel_index, fibex_path, attached } => {
                self.set_fr_watch(channel_index, fibex_path, attached, status);
                none
            },
            BusCommand::ClearDatabases => {
                self.clear_databases();
                none
            },
            BusCommand::SetBusMode { live } => {
                self.hw.live = live;
                *status = if live {
                    "总线模式：Real bus——挂接的硬件已上线（RX 进总线，定向 TX 出线）".to_owned()
                } else {
                    "总线模式：Simulated——硬件挂接保留但已下线（纯仿真）".to_owned()
                };
                none
            },
            BusCommand::Subscribe { key } => {
                let tag: String = signal_meta(&self.channels, &key);
                self.obs.subscribe(key, tag);
                none
            },
            BusCommand::Unsubscribe { key } => {
                self.obs.unsubscribe(&key);
                none
            },
            _ => none,
        }
    }

    /// What a command on the script nodes and replay blocks does to the state, to the status
    /// line, and asks for.
    pub open spec fn is_node_handled(
        self,
        after: BusCore,
        cmd: BusCommand,
        before: Seq<char>,
        status: Seq<char>,
        actions: Seq<BusAction>,
    ) -> bool {
        let same = status == before;
        let none = actions.len() == 0;
        match cmd {
            BusCommand::AddNode { name, channel, attached } => {
                &&& self.is_node_added(after, name, channel, attached, actions)
                &&& same
            },
            BusCommand::RemoveNode { id } => {
                &&& after.nodes@ == bus_nodes::without_node(
                    self.nodes@,
                    id,
                    self.nodes@.len() as int,
                )
                &&& after.obs@.streams == observers::kept_streams(
                    self.obs@.streams,
                    |s: (observers::KeyState, Seq<char>)| !observers::is_owned(s.0.id, id),
                    self.obs@.streams.len() as int,
                )
                &&& after.obs.subs == self.obs.subs
                &&& after.obs.color_counter == self.obs.color_counter
                &&& after == (BusCore {
                    nodes: after.nodes,
                    obs: after.obs,
                    nodes_dirty: true,
                    ..self
                })
                &&& same
                &&& none
            },
            BusCommand::SetNodeName { id, name } => {
                &&& self.is_node_renamed(after, id, name)
                &&& same
                &&& none
            },
            BusCommand::SetNodeSource { id, source } => {
                &&& self.is_source_set(after, id, source, actions)
                &&& same
            },
            BusCommand::SetNodeEnabled { id, on } => {
                &&& self.is_node_enabled(after, id, on, actions)
                &&& same
            },
            BusCommand::SetNodes { nodes } => {
                &&& self.are_nodes_set(after, nodes@, actions)
                &&& same
            },
            BusCommand::AddReplayBlock { cfg } => {
                &&& self.is_block_added(after, cfg, status)
                &&& none
            },
            BusCommand::SetReplayBlock { id, cfg, log } => {
                &&& self.is_block_set(after, id, cfg, log, before, status)
                &&& none
            },
            BusCommand::RemoveReplayBlock { id } => {
                &&& after.replay_blocks@ == bus_nodes::without_block(
                    self.replay_blocks@,
                    id,
                    self.replay_blocks@.len() as int,
                )
                &&& after == (BusCore {
                    replay_blocks: after.replay_blocks,
                    nodes_dirty: true,
                    ..self
                })
                &&& same
                &&& none
            },
            BusCommand::SetReplayBlockEnabled { id, on, log } => {
                &&& self.is_block_toggled(after, id, on, log, before, status)
                &&& none
            },
            BusCommand::SetReplayBlocks { blocks, logs } => {
                &&& self.are_blocks_set(after, blocks@, logs@)
                &&& same
                &&& none
            },
            _ => false,
        }
    }

    pub open spec fn is_node_command(cmd: BusCommand) -> bool {
        match cmd {
            BusCommand::AddNode { .. }
                | BusCommand::RemoveNode { .. }
                | BusCommand::SetNodeName { .. }
                | BusCommand::SetNodeSource { .. }
                | BusCommand::SetNodeEnabled { .. }
                | BusCommand::SetNodes { .. }
                | BusCommand::AddReplayBlock { .. }
                | BusCommand::SetReplayBlock { .. }
                | BusCommand::RemoveReplayBlock { .. }
                | BusCommand::SetReplayBlockEnabled { .. }
                | BusCommand::SetReplayBlocks { .. } => true,
            _ => false,
        }
    }

    fn handle_node(&mut self, cmd: BusCommand, status: &mut String) -> (actions: Vec<BusAction>)
        requires
            old(self).wf(),
            old(self).accepts(cmd),
            BusCore::is_node_command(cmd),
        ensures
            final(self).wf(),
            old(self).is_node_handled(
                *final(self),
                cmd,
                old(status)@,
                final(status)@,
                actions@,
            ),
    {
        let none: Vec<BusAction> = Vec::new();
        match cmd {
            BusCommand::AddNode { name, channel, attached } => self.add_node(
                name,
                channel,
                attached,
            ),
            BusCommand::RemoveNode { id } => {
                self.remove_node(id);
                none
            },
            BusCommand::SetNodeName { id, name } => {
                self.set_node_name(id, name);
                none
            },
            BusCommand::SetNodeSource { id, source } => self.set_node_source(id, source),
            BusCommand::SetNodeEnabled { id, on } => self.set_node_enabled(id, on),
            BusCommand::SetNodes { nodes } => self.set_nodes(nodes),
            BusCommand::AddReplayBlock { cfg } => {
                self.add_replay_block(cfg, status);
                none
            },
            BusCommand::SetReplayBlock { id, cfg, log } => {
                self.set_replay_block(id, cfg, log, status);
                none
            },
            BusCommand::RemoveReplayBlock { id } => {
                self.remove_replay_block(id);
                none
            },
            BusCommand::SetReplayBlockEnabled { id, on, log } => {
                self.set_replay_block_enabled(id, on, log, status);
                none
            },
            BusCommand::SetReplayBlocks { blocks, logs } => {
                self.set_replay_blocks(blocks, logs);
                none
            },
            _ => none,
        }
    }

    /// What a command on the trigger rules, the system variables and the write log does to the state, to the status
    /// line, and asks for.
    pub open spec fn is_rule_handled(
        self,
        after: BusCore,
        cmd: BusCommand,
        before: Seq<char>,
        status: Seq<char>,
        actions: Seq<BusAction>,
    ) -> bool {
        let same = status == before;
        let none = actions.len() == 0;
        match cmd {
            BusCommand::SetTriggers(rules) => {
                &&& after == (BusCore { triggers: rules, ..self })
                &&& same
                &&& none
            },
            BusCommand::AddTrigger { cond, action } => {
                &&& after.triggers@ == self.triggers@.push(
                    Trigger {
                        cond,
                        action,
                        enabled: true,
                        level: false,
                        fired: 0,
                        last_fire_t_us: 0,
                    },
                )
                &&& after == (BusCore { triggers: after.triggers, ..self })
                &&& same
                &&& none
            },
            BusCommand::RemoveTrigger { index } => {
                &&& after.triggers@ == (if index < self.triggers@.len() {
                    self.triggers@.remove(index as int)
                } else {
                    self.triggers@
                })
                &&& after == (BusCore { triggers: after.triggers, ..self })
                &&& same
                &&& none
            },
            BusCommand::SetTriggerEnabled { index, on } => {
                &&& after.triggers@ == (if index < self.triggers@.len() {
                    self.triggers@.update(
                        index as int,
                        Trigger { enabled: on, ..self.triggers@[index as int] },
                    )
                } else {
                    self.triggers@
                })
                &&& after == (BusCore { triggers: after.triggers, ..self })
                &&& same
                &&& none
            },
            BusCommand::EditTrigger { index, cond, action } => {
                &&& after.triggers@ == (if index < self.triggers@.len() {
                    self.triggers@.update(
                        index as int,
                        Trigger { cond, action, level: false, ..self.triggers@[index as int] },
                    )
                } else {
                    self.triggers@
                })
                &&& after == (BusCore { triggers: after.triggers, ..self })
                &&& same
                &&& none
            },
            BusCommand::DefineSysVar(def) => {
                &&& self.is_var_defined(after, def)
                &&& same
                &&& none
            },
            BusCommand::DeleteSysVar { namespace, name } => {
                &&& self.is_var_deleted(after, namespace@, name@)
                &&& same
                &&& none
            },
            BusCommand::SetSysVar { namespace, name, value } => {
                let key = namespace@ + "::"@ + name@;
                &&& self.is_var_written(after, key, value)
                &&& status == (if bus_types::var_index(self.sysvars@, key, 0) >= 0 {
                    before
                } else {
                    "[sysvar] 未定义: \""@ + key + "\""@
                })
                &&& none
            },
            BusCommand::ClearWrite => {
                &&& after.write_log@.len() == 0
                &&& after == (BusCore {
                    write_log: after.write_log,
                    write_dirty: true,
                    ..self
                })
                &&& same
                &&& none
            },
            _ => false,
        }
    }

    pub open spec fn is_rule_command(cmd: BusCommand) -> bool {
        match cmd {
            BusCommand::SetTriggers(_)
                | BusCommand::AddTrigger { .. }
                | BusCommand::RemoveTrigger { .. }
                | BusCommand::SetTriggerEnabled { .. }
                | BusCommand::EditTrigger { .. }
                | BusCommand::DefineSysVar(_)
                | BusCommand::DeleteSysVar { .. }
                | BusCommand::SetSysVar { .. }
                | BusCommand::ClearWrite => true,
            _ => false,
        }
    }

    fn handle_rule(&mut self, cmd: BusCommand, status: &mut String) -> (actions: Vec<BusAction>)
        requires
            old(self).wf(),
            old(self).accepts(cmd),
            BusCore::is_rule_command(cmd),
        ensures
            final(self).wf(),
            old(self).is_rule_handled(
                *final(self),
                cmd,
                old(status)@,
                final(status)@,
                actions@,
            ),
    {
        let none: Vec<BusAction> = Vec::new();
        match cmd {
            BusCommand::SetTriggers(rules) => {
                self.triggers = rules;
                none
            },
            BusCommand::AddTrigger { cond, action } => {
                self.add_trigger(cond, action);
                none
            },
            BusCommand::RemoveTrigger { index } => {
                self.remove_trigger(index);
                none
            },
            BusCommand::SetTriggerEnabled { index, on } => {
                self.set_trigger_enabled(index, on);
                none
            },
            BusCommand::EditTrigger { index, cond, action } => {
                self.edit_trigger(index, cond, action);
                none
            },
            BusCommand::DefineSysVar(def) => {
                self.define_sysvar(def);
                none
            },
            BusCommand::DeleteSysVar { namespace, name } => {
                self.delete_sysvar(namespace.as_str(), name.as_str());
                none
            },
            BusCommand::SetSysVar { namespace, name, value } => {
                let key: String = qualify(namespace.as_str(), name.as_str());
                if !self.sysvar_write(key.as_str(), value) {
                    *status = undefined_line(key.as_str());
                }
                none
            },
            BusCommand::ClearWrite => {
                self.write_log.clear();
                self.write_dirty = true;
                none
            },
            _ => none,
        }
    }

    /// What a command does: every command bumps the lap counter so that a caller can
    /// see progress, and then does what its kind does.
    pub open spec fn is_handled(
        self,
        after: BusCore,
        cmd: BusCommand,
        before: Seq<char>,
        status: Seq<char>,
        actions: Seq<BusAction>,
    ) -> bool {
        let mid = BusCore { laps: trace::counted(self.laps, 1) as u64, ..self };
        ||| mid.is_run_handled(after, cmd, before, status, actions)
        ||| mid.is_entry_handled(after, cmd, before, status, actions)
        ||| mid.is_bus_handled(after, cmd, before, status, actions)
        ||| mid.is_node_handled(after, cmd, before, status, actions)
        ||| mid.is_rule_handled(after, cmd, before, status, actions)
    }

    /// Applies one command. Returns the outside work that it asks for.
    pub fn handle(&mut self, cmd: BusCommand, status: &mut String) -> (actions: Vec<BusAction>)
        requires
            old(self).wf(),
            old(self).accepts(cmd),
        ensures
            final(self).wf(),
            old(self).is_handled(
                *final(self),
                cmd,
                old(status)@,
                final(status)@,
                actions@,
            ),
    {
        self.laps = trace::count_one(self.laps);
        match cmd {
            BusCommand::StartVirtual { .. }
            | BusCommand::Stop
            | BusCommand::SetTracePaused(_)
            | BusCommand::ToggleRecord { .. }
            | BusCommand::RearmTriggers
            | BusCommand::ClearTrace
            | BusCommand::ClearAggregates
            | BusCommand::SetRunMode(_)
            | BusCommand::SetReplaySpeed(_)
            | BusCommand::SeekReplay { .. }
            | BusCommand::StartReplay { .. }
            | BusCommand::ResumeReplay { .. }
            | BusCommand::ScanLog { .. }
            | BusCommand::Backfill { .. }
            | BusCommand::SetRecordPath(_)
            | BusCommand::SetRecordFilter { .. }
            | BusCommand::SetTraceLimit { .. }
            | BusCommand::SetRunLimits { .. }
            | BusCommand::ClearSpec
            | BusCommand::SendNow { .. } => self.handle_run(cmd, status),
            BusCommand::SetEntryActive { .. }
            | BusCommand::SetEntryFd { .. }
            | BusCommand::SetEntryCycle { .. }
            | BusCommand::SetEntryHex { .. }
            | BusCommand::RemoveEntry { .. }
            | BusCommand::AddEntry { .. }
            | BusCommand::SetEntrySource { .. }
            | BusCommand::ClearEntrySource { .. }
            | BusCommand::PinEntrySignal { .. }
            | BusCommand::SetEntryConfig { .. } => self.handle_entry(cmd, status),
            BusCommand::AddChannel { .. }
            | BusCommand::RemoveChannel { .. }
            | BusCommand::SetNodeRole { .. }
            | BusCommand::SetChannelConfig { .. }
            | BusCommand::LoadDbc { .. }
            | BusCommand::SetBusCounter(_)
            | BusCommand::SetHardwareChannel { .. }
            | BusCommand::DetachHardware { .. }
            | BusCommand::SetFrWatch { .. }
            | BusCommand::ClearDatabases
            | BusCommand::SetBusMode { .. }
            | BusCommand::Subscribe { .. }
            | BusCommand::Unsubscribe { .. } => self.handle_bus(cmd, status),
            BusCommand::AddNode { .. }
            | BusCommand::RemoveNode { .. }
            | BusCommand::SetNodeName { .. }
            | BusCommand::SetNodeSource { .. }
            | BusCommand::SetNodeEnabled { .. }
            | BusCommand::SetNodes { .. }
            | BusCommand::AddReplayBlock { .. }
            | BusCommand::SetReplayBlock { .. }
            | BusCommand::RemoveReplayBlock { .. }
            | BusCommand::SetReplayBlockEnabled { .. }
            | BusCommand::SetReplayBlocks { .. } => self.handle_node(cmd, status),
            _ => self.handle_rule(cmd, status),
        }
    }
}

/// A stopped bus drops a request for a single frame: the button means now, not some
/// later run.
pub proof fn law_a_stopped_bus_sends_nothing(
    core: BusCore,
    after: BusCore,
    ch: u8,
    id: u32,
    before: Seq<char>,
    status: Seq<char>,
    actions: Seq<BusAction>,
)
    requires
        !core.measuring,
        core.is_handled(after, BusCommand::SendNow { ch, id }, before, status, actions),
    ensures
        after.injected@ == core.injected@,
        actions.len() == 0,
{
}

/// Setting a limit twice is setting it once: a clamped count is not moved by the
/// clamp.
pub proof fn law_limits_are_stable(n: int, low: int, high: int)
    requires
        low <= high,
    ensures
        clamped(clamped(n, low, high), low, high) == clamped(n, low, high),
        low <= clamped(n, low, high) <= high,
{
}

/// Parking the hardware and connecting it again leaves every attachment as it was.
pub proof fn law_bus_mode_keeps_attachments(
    core: BusCore,
    parked: BusCore,
    back: BusCore,
    texts: (Seq<char>, Seq<char>, Seq<char>),
    actions: (Seq<BusAction>, Seq<BusAction>),
)
    requires
        core.is_handled(
            parked,
            BusCommand::SetBusMode { live: false },
            texts.0,
            texts.1,
            actions.0,
        ),
        parked.is_handled(
            back,
            BusCommand::SetBusMode { live: true },
            texts.1,
            texts.2,
            actions.1,
        ),
    ensures
        !parked.hw.live,
        back.hw.live,
        back.hw.buses == core.hw.buses,
        back.hw.fr_watch == core.hw.fr_watch,
{
}

} // verus!
