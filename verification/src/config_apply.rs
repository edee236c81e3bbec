//! Restoring a workspace from its saved form.

use vstd::prelude::*;
use vstd::string::*;
use crate::doubles;
use crate::doubles::SIGN;
use crate::app;
use crate::app::{number_name, App};
use crate::bus;
use crate::bus::{find_entry, BusCore};
use crate::bus_ingest;
use crate::bus_ingest::signal_meta;
use crate::bus_reload;
use crate::bus_reload::BusFiles;
use crate::can::frame::FrameFlags;
use crate::channel;
use crate::channel::{declare_role, Channel, NodeRole, RoleEntry};
use crate::config;
use crate::config::{
    sig_keys, value_src, ChannelCfg, Config, DataCfg, DesktopCfg, GfxCfg, MsgCfg, SrcCfg, StatsCfg,
    TraceCfg, TriggerCfg, TxCfg,
};
use crate::dbc_merge::FileText;
use crate::generator;
use crate::generator::{fill, TxMsg};
use crate::observe::SigKey;
use crate::observers;
use crate::sim::ValueSrc;
use crate::text;
use crate::triggers::{Trigger, TriggerAction, TriggerCond};
use crate::workspace;
use crate::workspace::{
    pair_set, DataWindow, Desktop, GfxSignal, GraphicsWindow, MsgWin, Panels, StatsWin, TraceWin,
    WindowKind,
};

verus! {

/// The bit patterns of a tenth, of 3600, of a hundredth and of 100.
pub const TENTH: u64 = 0x3FB9_9999_9999_999A;

pub const HOUR: u64 = 0x40AC_2000_0000_0000;

pub const HUNDREDTH: u64 = 0x3F84_7AE1_47AE_147B;

pub const HUNDRED: u64 = 0x4059_0000_0000_0000;

/// A double held between two positive ones. The patterns of positive doubles are in the
/// order of their values, every pattern with the sign bit lies below them, and what is
/// no number stays what it is.
pub open spec fn clamped_bits(v: u64, low: u64, high: u64) -> u64 {
    if !doubles::is_number(v) {
        v
    } else if v >= SIGN || v < low {
        low
    } else if v > high {
        high
    } else {
        v
    }
}

pub fn clamp_bits(v: u64, low: u64, high: u64) -> (r: u64)
    ensures
        r == clamped_bits(v, low, high),
{
    if !doubles::number(v) {
        v
    } else if v >= SIGN || v < low {
        low
    } else if v > high {
        high
    } else {
        v
    }
}

/// A bus as its saved form says, its databases still to be loaded. What transmits is
/// decided entry by entry: restoring the nodes starts no traffic.
pub open spec fn is_channel_of(c: Channel, cfg: ChannelCfg) -> bool {
    &&& c.name == cfg.name
    &&& c.dbc is None
    &&& text::views(c.dbc_paths@) == seq![cfg.dbc_path@]
    &&& c.dbc_sums@.len() == 0
    &&& channel::roles_sorted(c.node_roles@)
    &&& forall|node: Seq<char>| #[trigger]
        channel::role_in(c.node_roles@, node) == (if text::lists(cfg.sim_nodes@, node) {
            NodeRole::Simulated
        } else {
            NodeRole::Absent
        })
    &&& c.bitrate_kbps == cfg.bitrate_kbps
    &&& c.fd_data_kbps == cfg.fd_data_kbps
}

/// Some of the first `n` names is this one.
pub open spec fn named_before(names: Seq<String>, name: Seq<char>, n: int) -> bool {
    exists|i: int| 0 <= i < n && (#[trigger] names[i])@ == name
}

fn simulated_roles(names: &Vec<String>) -> (roles: Vec<RoleEntry>)
    ensures
        channel::roles_sorted(roles@),
        forall|node: Seq<char>| #[trigger]
            channel::role_in(roles@, node) == (if text::lists(names@, node) {
                NodeRole::Simulated
            } else {
                NodeRole::Absent
            }),
{
    let mut roles: Vec<RoleEntry> = Vec::new();
    for i in 0..names.len()
        invariant
            channel::roles_sorted(roles@),
            forall|node: Seq<char>| #[trigger]
                channel::role_in(roles@, node) == (if named_before(names@, node, i as int) {
                    NodeRole::Simulated
                } else {
                    NodeRole::Absent
                }),
    {
        let ghost before = roles@;
        declare_role(&mut roles, names[i].as_str(), NodeRole::Simulated);
        assert forall|node: Seq<char>| #[trigger]
            channel::role_in(roles@, node) == (if named_before(names@, node, i + 1) {
            NodeRole::Simulated
        } else {
            NodeRole::Absent
        }) by {
            if node == names@[i as int]@ {
                assert(named_before(names@, node, i + 1));
            } else {
                assert(channel::role_in(roles@, node) == channel::role_in(before, node));
                if named_before(names@, node, i + 1) {
                    let k = choose|k: int| 0 <= k < i + 1 && (#[trigger] names@[k])@ == node;
                    assert(k < i);
                    assert(named_before(names@, node, i as int));
                }
                if named_before(names@, node, i as int) {
                    let k = choose|k: int| 0 <= k < i && (#[trigger] names@[k])@ == node;
                    assert(names@[k]@ == node);
                }
            }
        }
    }
    assert forall|node: Seq<char>| #[trigger]
        channel::role_in(roles@, node) == (if text::lists(names@, node) {
        NodeRole::Simulated
    } else {
        NodeRole::Absent
    }) by {
        assert(text::lists(names@, node) == named_before(names@, node, names@.len() as int));
    }
    roles
}

fn channel_of(cfg: ChannelCfg) -> (c: Channel)
    ensures
        is_channel_of(c, cfg),
        c.wf(),
{
    let roles: Vec<RoleEntry> = simulated_roles(&cfg.sim_nodes);
    let mut paths: Vec<String> = Vec::new();
    let ghost path = cfg.dbc_path@;
    paths.push(cfg.dbc_path);
    assert(text::views(paths@) =~= seq![path]);
    Channel {
        name: cfg.name,
        dbc: None,
        dbc_paths: paths,
        dbc_sums: Vec::new(),
        node_roles: roles,
        bitrate_kbps: cfg.bitrate_kbps,
        fd_data_kbps: cfg.fd_data_kbps,
    }
}

/// The buses of a saved workspace, before their databases are loaded.
pub open spec fn are_buses_declared(
    before: BusCore,
    mid: BusCore,
    cfgs: Seq<ChannelCfg>,
    counter: usize,
) -> bool {
    &&& mid.channels@.len() == cfgs.len()
    &&& forall|i: int| 0 <= i < cfgs.len() ==> is_channel_of(#[trigger] mid.channels@[i], cfgs[i])
    &&& mid.bus_counter == (if counter < cfgs.len() {
        cfgs.len() as usize
    } else {
        counter
    })
    &&& mid == (BusCore { channels: mid.channels, bus_counter: mid.bus_counter, ..before })
}

/// A saved workspace without buses leaves those that are there.
pub open spec fn are_buses_restored(
    before: BusCore,
    after: BusCore,
    cfgs: Seq<ChannelCfg>,
    counter: usize,
    files: Seq<Vec<Result<FileText, String>>>,
) -> bool {
    if cfgs.len() == 0 {
        after == before
    } else {
        exists|mid: BusCore, line: Option<Seq<char>>|
            {
                &&& are_buses_declared(before, mid, cfgs, counter)
                &&& #[trigger] bus_reload::are_loaded(
                    mid,
                    after,
                    bus_reload::first_buses(cfgs.len() as int),
                    files,
                    line,
                )
            }
    }
}

fn restore_buses(core: &mut BusCore, cfgs: Vec<ChannelCfg>, counter: usize, files: &BusFiles)
    requires
        old(core).wf(),
        cfgs@.len() > 0 ==> files@.len() == cfgs@.len(),
        cfgs@.len() > 0 ==> forall|i: int|
            0 <= i < files@.len() ==> (#[trigger] files@[i])@.len() == 1,
    ensures
        final(core).wf(),
        are_buses_restored(*old(core), *final(core), cfgs@, counter, files@),
{
    let ghost all = cfgs@;
    let count: usize = cfgs.len();
    if count == 0 {
        return;
    }
    let mut channels: Vec<Channel> = Vec::new();
    for c in it: cfgs
        invariant
            it.seq() == all,
            channels@.len() == it.index(),
            forall|k: int| 0 <= k < channels@.len() ==> (#[trigger] channels@[k]).wf(),
            forall|k: int|
                0 <= k < channels@.len() ==> is_channel_of(#[trigger] channels@[k], all[k]),
    {
        assert(c == all[it.index() as int]);
        channels.push(channel_of(c));
    }
    core.channels = channels;
    core.bus_counter = if counter < count {
        count
    } else {
        counter
    };
    let ghost mid = *core;
    assert(are_buses_declared(*old(core), mid, all, counter));
    assert forall|i: int| 0 <= i < files@.len() implies (#[trigger] files@[i])@.len()
        == core.channels@[i].dbc_paths@.len() by {
        assert(files@[i]@.len() == 1);
        assert(is_channel_of(core.channels@[i], all[i]));
        assert(core.channels@[i].dbc_paths@.len() == text::views(
            core.channels@[i].dbc_paths@,
        ).len());
    }
    core.bootstrap_dbcs(files);
}

/// The sources that a saved entry holds, as far as their kinds are known.
pub open spec fn known_sources(cfgs: Seq<SrcCfg>, n: int) -> Seq<ValueSrc>
    decreases n,
{
    if n <= 0 {
        Seq::empty()
    } else {
        let before = known_sources(cfgs, n - 1);
        match config::source_of(cfgs[n - 1]) {
            Some(s) => before.push(s),
            None => before,
        }
    }
}

fn read_sources(cfgs: Vec<SrcCfg>) -> (r: Vec<ValueSrc>)
    ensures
        r@ == known_sources(cfgs@, cfgs@.len() as int),
{
    let ghost all = cfgs@;
    let mut r: Vec<ValueSrc> = Vec::new();
    for c in it: cfgs
        invariant
            it.seq() == all,
            r@ == known_sources(all, it.index() as int),
    {
        assert(c == all[it.index() as int]);
        match value_src(c) {
            Some(s) => {
                r.push(s);
            },
            None => {},
        }
    }
    r
}

/// A saved period: 0 is event-triggered and stays, anything else is at least a
/// millisecond.
pub open spec fn restored_cycle(cycle_us: u64) -> u64 {
    if cycle_us == 0 || cycle_us >= 1_000 {
        cycle_us
    } else {
        1_000
    }
}

/// The first 64 of some bytes.
pub open spec fn fitting(bytes: Seq<u8>) -> Seq<u8> {
    if bytes.len() > 64 {
        bytes.subrange(0, 64)
    } else {
        bytes
    }
}

/// An entry with its saved state laid over it. Without a saved text the base payload
/// stays.
pub open spec fn is_overlaid(was: TxMsg, now: TxMsg, c: TxCfg) -> bool {
    &&& now.active == c.active
    &&& now.cycle_us == restored_cycle(c.cycle_us)
    &&& now.flags == (if c.fd {
        FrameFlags::fd()
    } else {
        FrameFlags::none()
    })
    &&& if c.data_text@.len() > 0 {
        &&& now.data_text == c.data_text
        &&& now.data@ == generator::zero_filled(fitting(c.data@))
        &&& now.len == fitting(c.data@).len()
    } else {
        &&& now.data_text == was.data_text
        &&& now.data == was.data
        &&& now.len == was.len
    }
    &&& now.srcs@ == known_sources(c.srcs@, c.srcs@.len() as int)
    &&& now == (TxMsg {
        active: now.active,
        cycle_us: now.cycle_us,
        flags: now.flags,
        data_text: now.data_text,
        data: now.data,
        len: now.len,
        srcs: now.srcs,
        ..was
    })
}

/// The entries after one saved entry was laid over its own; a message that no database
/// declares is ignored.
pub open spec fn is_entry_restored(before: Seq<TxMsg>, after: Seq<TxMsg>, c: TxCfg) -> bool {
    let k = bus::entry_index(before, c.channel, c.id, 0);
    if k < 0 {
        after == before
    } else {
        after == before.update(k, after[k]) && is_overlaid(before[k], after[k], c)
    }
}

fn restore_entry(list: &mut Vec<TxMsg>, c: TxCfg)
    requires
        bus::entries_fit(old(list)@),
    ensures
        bus::entries_fit(final(list)@),
        is_entry_restored(old(list)@, final(list)@, c),
{
    let k: usize = match find_entry(list, c.channel, c.id) {
        Some(k) => k,
        None => {
            return;
        },
    };
    let ghost before = list@;
    proof {
        reveal_strlit("");
        assert(c.data_text@.len() == 0 ==> c.data_text@ =~= ""@);
    }
    let named: bool = !text::same_text(c.data_text.as_str(), "");
    let tx: &mut TxMsg = &mut list[k];
    tx.active = c.active;
    tx.cycle_us = if c.cycle_us == 0 || c.cycle_us >= 1_000 {
        c.cycle_us
    } else {
        1_000
    };
    tx.flags = if c.fd {
        FrameFlags::fd()
    } else {
        FrameFlags::none()
    };
    if named {
        let mut bytes: Vec<u8> = c.data;
        let ghost given = bytes@;
        if bytes.len() > 64 {
            bytes.truncate(64);
            assert(bytes@ =~= given.subrange(0, 64));
        }
        assert(bytes@ == fitting(given));
        tx.data_text = c.data_text;
        tx.data = fill(bytes.as_slice());
        tx.len = bytes.len() as u8;
    }
    tx.srcs = read_sources(c.srcs);
    assert(list@ =~= before.update(k as int, list@[k as int]));
    assert forall|i: int| 0 <= i < list@.len() implies (#[trigger] list@[i]).len <= 64
        && list@[i].last_len <= 64 by {
        assert(before[i].len <= 64);
    }
}

/// `steps` are the entry lists as the saved entries are laid over one after the other.
pub open spec fn are_restores(cfgs: Seq<TxCfg>, steps: Seq<Seq<TxMsg>>) -> bool {
    &&& steps.len() == cfgs.len() + 1
    &&& forall|k: int|
        #![trigger cfgs[k]]
        0 <= k < cfgs.len() ==> is_entry_restored(steps[k], steps[k + 1], cfgs[k])
}

/// The entries after every saved entry was laid over its own.
pub open spec fn are_entries_restored(
    before: Seq<TxMsg>,
    after: Seq<TxMsg>,
    cfgs: Seq<TxCfg>,
) -> bool {
    exists|steps: Seq<Seq<TxMsg>>|
        #[trigger] are_restores(cfgs, steps) && steps[0] == before && steps.last() == after
}

fn restore_entries(list: &mut Vec<TxMsg>, cfgs: Vec<TxCfg>)
    requires
        bus::entries_fit(old(list)@),
    ensures
        bus::entries_fit(final(list)@),
        are_entries_restored(old(list)@, final(list)@, cfgs@),
{
    let ghost all = cfgs@;
    let ghost mut steps: Seq<Seq<TxMsg>> = seq![list@];
    for c in it: cfgs
        invariant
            it.seq() == all,
            bus::entries_fit(list@),
            steps.len() == it.index() + 1,
            steps[0] == old(list)@,
            steps[it.index() as int] == list@,
            forall|k: int|
                #![trigger all[k]]
                0 <= k < it.index() ==> is_entry_restored(steps[k], steps[k + 1], all[k]),
    {
        assert(c == all[it.index() as int]);
        let ghost held = steps;
        restore_entry(list, c);
        proof {
            steps = steps.push(list@);
            assert forall|k: int|
                #![trigger all[k]]
                0 <= k < it.index() + 1 implies is_entry_restored(
                steps[k],
                steps[k + 1],
                all[k],
            ) by {
                if k < it.index() {
                    assert(steps[k] == held[k] && steps[k + 1] == held[k + 1]);
                }
            }
        }
    }
    assert(are_restores(all, steps));
}

/// The generator is rebuilt from the databases, and the saved entries are laid over it.
pub open spec fn is_generator_rebuilt(before: BusCore, after: BusCore, cfgs: Seq<TxCfg>) -> bool {
    exists|empty: BusCore, filled: BusCore|
        {
            &&& empty.tx_list@.len() == 0
            &&& empty == (BusCore { tx_list: empty.tx_list, ..before })
            &&& #[trigger] empty.is_populated(filled)
            &&& are_entries_restored(filled.tx_list@, after.tx_list@, cfgs)
            &&& after == (BusCore { tx_list: after.tx_list, ..filled })
        }
}

pub open spec fn is_trace_of(w: TraceWin, c: TraceCfg) -> bool {
    &&& w.name == c.name
    &&& w.opened == c.opened
    &&& w.scope == c.scope
    &&& w.manual@ == workspace::distinct(c.manual@, c.manual@.len() as int)
    &&& w.filter == c.filter
    &&& w.dir == (if c.dir <= 2 {
        c.dir
    } else {
        2
    })
    &&& w.dbc_only == c.dbc_only
    &&& w.shown_t_us == u64::MAX
    &&& w.shown_count == 0
}

pub open spec fn is_msg_of(w: MsgWin, c: MsgCfg) -> bool {
    &&& w.name == c.name
    &&& w.opened == c.opened
    &&& w.scope == c.scope
    &&& w.manual@ == workspace::distinct(c.manual@, c.manual@.len() as int)
    &&& w.filter == c.filter
    &&& w.dbc_only == c.dbc_only
    &&& w.text_keys@.len() == 0
    &&& w.text_rows@.len() == 0
    &&& w.text_header@.len() == 0
}

pub open spec fn is_stats_of(w: StatsWin, c: StatsCfg) -> bool {
    &&& w.name == c.name
    &&& w.opened == c.opened
    &&& w.scope == c.scope
    &&& w.manual@ == workspace::distinct(c.manual@, c.manual@.len() as int)
    &&& w.text_keys@.len() == 0
    &&& w.text_rows@.len() == 0
    &&& w.text_header@.len() == 0
}

/// A plot window spans between a tenth of a second and an hour.
pub open spec fn is_gfx_of(g: GraphicsWindow, c: GfxCfg) -> bool {
    &&& g.name == c.name
    &&& g.signals@ == config::signals_of(c.signals@)
    &&& g.time_window_s == clamped_bits(c.time_window_s, TENTH, HOUR)
    &&& g.stacked == c.stacked
    &&& g.opened == c.opened
    &&& g.t_offset_s == 0
    &&& g.show_cursor == c.show_cursor
    &&& g.zoom_enabled == c.zoom_enabled
    &&& g.show_markers == c.show_markers
}

pub open spec fn is_data_of(d: DataWindow, c: DataCfg) -> bool {
    &&& d.name == c.name
    &&& d.signals@ == config::signals_of(c.signals@)
    &&& d.opened == c.opened
}

/// The trace windows of a saved workspace; one without any leaves those that are there.
pub open spec fn are_traces_restored(before: Vec<TraceWin>, after: Vec<TraceWin>, cfgs: Seq<TraceCfg>) -> bool {
    if cfgs.len() == 0 {
        after == before
    } else {
        &&& after@.len() == cfgs.len()
        &&& forall|i: int| 0 <= i < cfgs.len() ==> is_trace_of(#[trigger] after@[i], cfgs[i])
    }
}

/// The message windows of a saved workspace; one without any leaves those that are there.
pub open spec fn are_messages_restored(before: Vec<MsgWin>, after: Vec<MsgWin>, cfgs: Seq<MsgCfg>) -> bool {
    if cfgs.len() == 0 {
        after == before
    } else {
        &&& after@.len() == cfgs.len()
        &&& forall|i: int| 0 <= i < cfgs.len() ==> is_msg_of(#[trigger] after@[i], cfgs[i])
    }
}

/// The statistics windows of a saved workspace; one without any leaves those that are there.
pub open spec fn are_stats_restored(before: Vec<StatsWin>, after: Vec<StatsWin>, cfgs: Seq<StatsCfg>) -> bool {
    if cfgs.len() == 0 {
        after == before
    } else {
        &&& after@.len() == cfgs.len()
        &&& forall|i: int| 0 <= i < cfgs.len() ==> is_stats_of(#[trigger] after@[i], cfgs[i])
    }
}

/// The plot windows of a saved workspace; one without any leaves those that are there.
pub open spec fn are_plots_restored(before: Vec<GraphicsWindow>, after: Vec<GraphicsWindow>, cfgs: Seq<GfxCfg>) -> bool {
    if cfgs.len() == 0 {
        after == before
    } else {
        &&& after@.len() == cfgs.len()
        &&& forall|i: int| 0 <= i < cfgs.len() ==> is_gfx_of(#[trigger] after@[i], cfgs[i])
    }
}

/// The data windows of a saved workspace; one without any leaves those that are there.
pub open spec fn are_tables_restored(before: Vec<DataWindow>, after: Vec<DataWindow>, cfgs: Seq<DataCfg>) -> bool {
    if cfgs.len() == 0 {
        after == before
    } else {
        &&& after@.len() == cfgs.len()
        &&& forall|i: int| 0 <= i < cfgs.len() ==> is_data_of(#[trigger] after@[i], cfgs[i])
    }
}

fn trace_windows_of(cfgs: Vec<TraceCfg>) -> (r: Vec<TraceWin>)
    ensures
        r@.len() == cfgs@.len(),
        forall|i: int| 0 <= i < r@.len() ==> is_trace_of(#[trigger] r@[i], cfgs@[i]),
        forall|i: int| 0 <= i < r@.len() ==> workspace::is_set((#[trigger] r@[i]).manual@),
{
    let ghost all = cfgs@;
    let mut r: Vec<TraceWin> = Vec::new();
    for c in it: cfgs
        invariant
            it.seq() == all,
            r@.len() == it.index(),
            forall|i: int| 0 <= i < r@.len() ==> is_trace_of(#[trigger] r@[i], all[i]),
            forall|i: int| 0 <= i < r@.len() ==> workspace::is_set((#[trigger] r@[i]).manual@),
    {
        assert(c == all[it.index() as int]);
        proof {
            workspace::lemma_distinct(c.manual@, c.manual@.len() as int);
        }
        r.push(
            TraceWin {
                name: c.name,
                opened: c.opened,
                scope: c.scope,
                manual: pair_set(&c.manual),
                filter: c.filter,
                dir: if c.dir <= 2 {
                    c.dir
                } else {
                    2
                },
                dbc_only: c.dbc_only,
                shown_t_us: u64::MAX,
                shown_count: 0,
            },
        );
    }
    r
}

fn msg_windows_of(cfgs: Vec<MsgCfg>) -> (r: Vec<MsgWin>)
    ensures
        r@.len() == cfgs@.len(),
        forall|i: int| 0 <= i < r@.len() ==> is_msg_of(#[trigger] r@[i], cfgs@[i]),
        forall|i: int| 0 <= i < r@.len() ==> workspace::is_set((#[trigger] r@[i]).manual@),
{
    let ghost all = cfgs@;
    let mut r: Vec<MsgWin> = Vec::new();
    for c in it: cfgs
        invariant
            it.seq() == all,
            r@.len() == it.index(),
            forall|i: int| 0 <= i < r@.len() ==> is_msg_of(#[trigger] r@[i], all[i]),
            forall|i: int| 0 <= i < r@.len() ==> workspace::is_set((#[trigger] r@[i]).manual@),
    {
        assert(c == all[it.index() as int]);
        proof {
            workspace::lemma_distinct(c.manual@, c.manual@.len() as int);
            reveal_strlit("");
        }
        r.push(
            MsgWin {
                name: c.name,
                opened: c.opened,
                scope: c.scope,
                manual: pair_set(&c.manual),
                filter: c.filter,
                dbc_only: c.dbc_only,
                text_keys: Vec::new(),
                text_rows: Vec::new(),
                text_header: String::new(),
            },
        );
    }
    r
}

fn stats_windows_of(cfgs: Vec<StatsCfg>) -> (r: Vec<StatsWin>)
    ensures
        r@.len() == cfgs@.len(),
        forall|i: int| 0 <= i < r@.len() ==> is_stats_of(#[trigger] r@[i], cfgs@[i]),
        forall|i: int| 0 <= i < r@.len() ==> workspace::is_set((#[trigger] r@[i]).manual@),
{
    let ghost all = cfgs@;
    let mut r: Vec<StatsWin> = Vec::new();
    for c in it: cfgs
        invariant
            it.seq() == all,
            r@.len() == it.index(),
            forall|i: int| 0 <= i < r@.len() ==> is_stats_of(#[trigger] r@[i], all[i]),
            forall|i: int| 0 <= i < r@.len() ==> workspace::is_set((#[trigger] r@[i]).manual@),
    {
        assert(c == all[it.index() as int]);
        proof {
            workspace::lemma_distinct(c.manual@, c.manual@.len() as int);
            reveal_strlit("");
        }
        r.push(
            StatsWin {
                name: c.name,
                opened: c.opened,
                scope: c.scope,
                manual: pair_set(&c.manual),
                text_keys: Vec::new(),
                text_rows: Vec::new(),
                text_header: String::new(),
            },
        );
    }
    r
}

fn graphics_of(cfgs: Vec<GfxCfg>) -> (r: Vec<GraphicsWindow>)
    ensures
        r@.len() == cfgs@.len(),
        forall|i: int| 0 <= i < r@.len() ==> is_gfx_of(#[trigger] r@[i], cfgs@[i]),
{
    let ghost all = cfgs@;
    let mut r: Vec<GraphicsWindow> = Vec::new();
    for c in it: cfgs
        invariant
            it.seq() == all,
            r@.len() == it.index(),
            forall|i: int| 0 <= i < r@.len() ==> is_gfx_of(#[trigger] r@[i], all[i]),
    {
        assert(c == all[it.index() as int]);
        r.push(
            GraphicsWindow {
                name: c.name,
                signals: sig_keys(c.signals),
                time_window_s: clamp_bits(c.time_window_s, TENTH, HOUR),
                stacked: c.stacked,
                opened: c.opened,
                t_offset_s: 0,
                show_cursor: c.show_cursor,
                zoom_enabled: c.zoom_enabled,
                show_markers: c.show_markers,
            },
        );
    }
    r
}

fn data_windows_of(cfgs: Vec<DataCfg>) -> (r: Vec<DataWindow>)
    ensures
        r@.len() == cfgs@.len(),
        forall|i: int| 0 <= i < r@.len() ==> is_data_of(#[trigger] r@[i], cfgs@[i]),
{
    let ghost all = cfgs@;
    let mut r: Vec<DataWindow> = Vec::new();
    for c in it: cfgs
        invariant
            it.seq() == all,
            r@.len() == it.index(),
            forall|i: int| 0 <= i < r@.len() ==> is_data_of(#[trigger] r@[i], all[i]),
    {
        assert(c == all[it.index() as int]);
        r.push(DataWindow { name: c.name, signals: sig_keys(c.signals), opened: c.opened });
    }
    r
}

/// The rule of a saved form; nothing for an unknown kind.
pub open spec fn rule_of(c: TriggerCfg) -> Option<Trigger> {
    let cond = if c.kind == 0 {
        Some(
            TriggerCond::SignalCross {
                ch: c.ch,
                id: c.id,
                ext: c.id > 0x7FF,
                signal: c.signal,
                threshold: c.threshold,
                rising: c.rising,
            },
        )
    } else if c.kind == 1 {
        Some(TriggerCond::IdPresent { ch: c.ch, id: c.id })
    } else if c.kind == 2 {
        Some(TriggerCond::ErrorFrame { ch: c.ch })
    } else if c.kind == 3 {
        Some(TriggerCond::CycleTimeout { ch: c.ch, id: c.id })
    } else if c.kind == 4 {
        Some(
            TriggerCond::SysVar { key: c.signal, threshold: c.threshold, rising: c.rising },
        )
    } else {
        None
    };
    let action = if c.action == 1 {
        TriggerAction::StopRecording
    } else if c.action == 2 {
        TriggerAction::Send { ch: c.send_ch, id: c.send_id }
    } else if c.action == 3 {
        TriggerAction::InsertMarker
    } else if c.action == 4 {
        TriggerAction::ClearTrace
    } else {
        TriggerAction::StartRecording
    };
    match cond {
        Some(k) => Some(
            Trigger {
                cond: k,
                action,
                enabled: c.enabled,
                level: false,
                fired: 0,
                last_fire_t_us: 0,
            },
        ),
        None => None,
    }
}

fn read_rule(c: TriggerCfg) -> (r: Option<Trigger>)
    ensures
        r == rule_of(c),
{
    let action: TriggerAction = match c.action {
        1 => TriggerAction::StopRecording,
        2 => TriggerAction::Send { ch: c.send_ch, id: c.send_id },
        3 => TriggerAction::InsertMarker,
        4 => TriggerAction::ClearTrace,
        _ => TriggerAction::StartRecording,
    };
    let cond: TriggerCond = match c.kind {
        0 => TriggerCond::SignalCross {
            ch: c.ch,
            id: c.id,
            ext: c.id > 0x7FF,
            signal: c.signal,
            threshold: c.threshold,
            rising: c.rising,
        },
        1 => TriggerCond::IdPresent { ch: c.ch, id: c.id },
        2 => TriggerCond::ErrorFrame { ch: c.ch },
        3 => TriggerCond::CycleTimeout { ch: c.ch, id: c.id },
        4 => TriggerCond::SysVar { key: c.signal, threshold: c.threshold, rising: c.rising },
        _ => {
            return None;
        },
    };
    let mut t: Trigger = Trigger::new(cond, action);
    t.enabled = c.enabled;
    Some(t)
}

/// The rules of the saved forms whose kinds are known.
pub open spec fn known_rules(cfgs: Seq<TriggerCfg>, n: int) -> Seq<Trigger>
    decreases n,
{
    if n <= 0 {
        Seq::empty()
    } else {
        let before = known_rules(cfgs, n - 1);
        match rule_of(cfgs[n - 1]) {
            Some(t) => before.push(t),
            None => before,
        }
    }
}

fn read_rules(cfgs: Vec<TriggerCfg>) -> (r: Vec<Trigger>)
    ensures
        r@ == known_rules(cfgs@, cfgs@.len() as int),
{
    let ghost all = cfgs@;
    let mut r: Vec<Trigger> = Vec::new();
    for c in it: cfgs
        invariant
            it.seq() == all,
            r@ == known_rules(all, it.index() as int),
    {
        assert(c == all[it.index() as int]);
        match read_rule(c) {
            Some(t) => {
                r.push(t);
            },
            None => {},
        }
    }
    r
}

/// The subscriptions after each of the first `n` signals was subscribed to.
pub open spec fn with_signals(
    obs: observers::Watch,
    channels: Seq<Channel>,
    signals: Seq<GfxSignal>,
    n: int,
) -> observers::Watch
    decreases n,
{
    if n <= 0 {
        obs
    } else {
        let key = signals[n - 1].key_spec();
        with_signals(obs, channels, signals, n - 1).subscribed(
            key,
            bus_ingest::meta_by(channels, key),
        )
    }
}

/// The subscriptions after the signals of the first `n` plot windows.
pub open spec fn with_graphics(
    obs: observers::Watch,
    channels: Seq<Channel>,
    windows: Seq<GraphicsWindow>,
    n: int,
) -> observers::Watch
    decreases n,
{
    if n <= 0 {
        obs
    } else {
        let s = windows[n - 1].signals@;
        with_signals(with_graphics(obs, channels, windows, n - 1), channels, s, s.len() as int)
    }
}

/// The subscriptions after the signals of the first `n` data windows.
pub open spec fn with_data(
    obs: observers::Watch,
    channels: Seq<Channel>,
    windows: Seq<DataWindow>,
    n: int,
) -> observers::Watch
    decreases n,
{
    if n <= 0 {
        obs
    } else {
        let s = windows[n - 1].signals@;
        with_signals(with_data(obs, channels, windows, n - 1), channels, s, s.len() as int)
    }
}

fn subscribe_signals(core: &mut BusCore, signals: &Vec<GfxSignal>)
    requires
        old(core).wf(),
    ensures
        final(core).wf(),
        final(core).obs@ == with_signals(
            old(core).obs@,
            old(core).channels@,
            signals@,
            signals@.len() as int,
        ),
        *final(core) == (BusCore { obs: final(core).obs, ..*old(core) }),
{
    for i in 0..signals.len()
        invariant
            core.wf(),
            core.obs@ == with_signals(
                old(core).obs@,
                old(core).channels@,
                signals@,
                i as int,
            ),
            *core == (BusCore { obs: core.obs, ..*old(core) }),
    {
        let key: SigKey = signals[i].key();
        let tag: String = signal_meta(&core.channels, &key);
        assert(bus_ingest::meta_of(core.channels@, key) == bus_ingest::meta_by(
            core.channels@,
            key@,
        ));
        core.obs.subscribe(key, tag);
    }
}

/// The name of a saved desktop; a nameless one is numbered.
pub open spec fn desktop_name(c: DesktopCfg, i: int) -> Seq<char> {
    if text::trimmed(c.name@).len() == 0 {
        app::numbered("Desktop "@, i + 1)
    } else {
        c.name@
    }
}

/// The open windows of a saved desktop whose kinds are known.
pub open spec fn known_windows(open: Seq<(u8, String)>, n: int) -> Seq<(WindowKind, String)>
    decreases n,
{
    if n <= 0 {
        Seq::empty()
    } else {
        let before = known_windows(open, n - 1);
        match WindowKind::of_code(open[n - 1].0) {
            Some(k) => before.push((k, open[n - 1].1)),
            None => before,
        }
    }
}

/// The desktop of a saved form.
pub open spec fn is_desktop_of(d: Desktop, c: DesktopCfg, i: int) -> bool {
    &&& d.name@ == desktop_name(c, i)
    &&& d.layout == c.layout
    &&& d.open_windows@ == known_windows(c.open@, c.open@.len() as int)
    &&& d.panels == config::panels_of(c)
}

fn read_open(open: Vec<(u8, String)>) -> (r: Vec<(WindowKind, String)>)
    ensures
        r@ == known_windows(open@, open@.len() as int),
{
    let ghost all = open@;
    let mut r: Vec<(WindowKind, String)> = Vec::new();
    for w in it: open
        invariant
            it.seq() == all,
            r@ == known_windows(all, it.index() as int),
    {
        assert(w == all[it.index() as int]);
        match WindowKind::from_u8(w.0) {
            Some(k) => {
                r.push((k, w.1));
            },
            None => {},
        }
    }
    r
}

fn desktops_of(cfgs: Vec<DesktopCfg>) -> (r: Vec<Desktop>)
    ensures
        r@.len() == cfgs@.len(),
        forall|i: int| 0 <= i < r@.len() ==> is_desktop_of(#[trigger] r@[i], cfgs@[i], i),
{
    let ghost all = cfgs@;
    let total: usize = cfgs.len();
    let mut r: Vec<Desktop> = Vec::new();
    for c in it: cfgs
        invariant
            it.seq() == all,
            total == all.len(),
            r@.len() == it.index(),
            forall|i: int| 0 <= i < r@.len() ==> is_desktop_of(#[trigger] r@[i], all[i], i),
    {
        assert(c == all[it.index() as int]);
        let n: usize = r.len() + 1;
        let name: String = if text::trim_chars(c.name.as_str()).len() == 0 {
            number_name("Desktop ", n as u64)
        } else {
            c.name
        };
        r.push(
            Desktop {
                name,
                layout: c.layout,
                open_windows: read_open(c.open),
                panels: Panels {
                    show_tx: c.show_tx,
                    show_network: c.show_network,
                    show_measurement: c.show_measurement,
                    show_buses: c.show_buses,
                    show_triggers: c.show_triggers,
                    show_bus_stats: c.show_bus_stats,
                    show_spec: c.show_spec,
                    show_id_filter: c.show_id_filter,
                },
            },
        );
    }
    r
}

impl Config {
    /// The bus and its generator are restored; nothing else changes yet.
    pub open spec fn is_bus_restored(
        self,
        before: App,
        after: App,
        files: Seq<Vec<Result<FileText, String>>>,
    ) -> bool {
        exists|mid: BusCore|
            {
                &&& #[trigger] are_buses_restored(
                    before.core,
                    mid,
                    self.channels@,
                    self.bus_counter,
                    files,
                )
                &&& is_generator_rebuilt(mid, after.core, self.tx@)
                &&& after == (App { core: after.core, ..before })
            }
    }

    /// The windows are restored, kind by kind; a kind without saved windows keeps those
    /// that are there.
    pub open spec fn are_windows_restored(self, before: App, after: App) -> bool {
        &&& are_traces_restored(before.trace_windows, after.trace_windows, self.trace_windows@)
        &&& are_messages_restored(before.msg_windows, after.msg_windows, self.msg_windows@)
        &&& are_stats_restored(before.stats_windows, after.stats_windows, self.stats_windows@)
        &&& are_plots_restored(before.graphics, after.graphics, self.graphics@)
        &&& are_tables_restored(before.data_windows, after.data_windows, self.data_windows@)
        &&& after == (App {
            trace_windows: after.trace_windows,
            msg_windows: after.msg_windows,
            stats_windows: after.stats_windows,
            graphics: after.graphics,
            data_windows: after.data_windows,
            ..before
        })
    }

    /// The panels, the rules and the settings are restored. A grace of nothing would
    /// condemn every message, so it is at least one.
    pub open spec fn are_settings_restored(self, before: App, after: App) -> bool {
        &&& after.core.triggers@ == known_rules(self.triggers@, self.triggers@.len() as int)
        &&& after.core == (BusCore { triggers: after.core.triggers, ..before.core })
        &&& after.panels == config::config_panels(self)
        &&& after.text_rate_hz == self.text_rate_hz
        &&& after.trigger_sel is None
        &&& after.trig_edit_sel is None
        &&& after.spec_tol_pct == self.spec.tolerance_percent
        &&& after.spec_grace == (if self.spec.grace_cycles == 0 {
            1
        } else {
            self.spec.grace_cycles
        })
        &&& after.replay_speed == clamped_bits(self.replay_speed, HUNDREDTH, HUNDRED)
        &&& after.counters == self.counters
        &&& after.recent_dbc == self.recent_dbc
        &&& after.recent_log == self.recent_log
        &&& after == (App {
            core: after.core,
            panels: after.panels,
            text_rate_hz: after.text_rate_hz,
            trigger_sel: None,
            trig_edit_sel: None,
            spec_tol_pct: after.spec_tol_pct,
            spec_grace: after.spec_grace,
            replay_speed: after.replay_speed,
            counters: after.counters,
            recent_dbc: after.recent_dbc,
            recent_log: after.recent_log,
            ..before
        })
    }

    /// Every signal of the restored windows is subscribed to, or it would never receive
    /// a value.
    pub open spec fn are_signals_subscribed(before: App, after: App) -> bool {
        let plotted = with_graphics(
            before.core.obs@,
            before.core.channels@,
            before.graphics@,
            before.graphics@.len() as int,
        );
        &&& after.core.obs@ == with_data(
            plotted,
            before.core.channels@,
            before.data_windows@,
            before.data_windows@.len() as int,
        )
        &&& after.core == (BusCore { obs: after.core.obs, ..before.core })
        &&& after == (App { core: after.core, ..before })
    }

    /// The desktops are restored; a saved workspace without any folds the windows into
    /// one.
    pub open spec fn are_desktops_restored(self, before: App, after: App) -> bool {
        &&& if self.desktops@.len() > 0 {
            &&& after.desktops@.len() == self.desktops@.len()
            &&& forall|i: int|
                0 <= i < self.desktops@.len() ==> is_desktop_of(
                    #[trigger] after.desktops@[i],
                    self.desktops@[i],
                    i,
                )
            &&& after.active_desktop == (if self.active_desktop < self.desktops@.len() {
                self.active_desktop as int
            } else {
                self.desktops@.len() - 1
            })
        } else {
            &&& after.desktops@.len() == 1
            &&& after.desktops@[0].name@ == "Desktop 1"@
            &&& after.desktops@[0].layout == before.layout_cache
            &&& after.desktops@[0].open_windows@ == before.open_windows_spec()
            &&& after.desktops@[0].panels == before.panels
            &&& after.active_desktop == 0
        }
        &&& after == (App {
            desktops: after.desktops,
            active_desktop: after.active_desktop,
            ..before
        })
    }

    /// The steps of a restore.
    pub open spec fn is_chain(
        self,
        before: App,
        bus: App,
        windows: App,
        settings: App,
        signals: App,
        desktops: App,
        after: App,
        files: Seq<Vec<Result<FileText, String>>>,
    ) -> bool {
        &&& self.is_bus_restored(before, bus, files)
        &&& self.are_windows_restored(bus, windows)
        &&& self.are_settings_restored(windows, settings)
        &&& Config::are_signals_subscribed(settings, signals)
        &&& self.are_desktops_restored(signals, desktops)
        &&& desktops.is_arranged(
            after,
            desktops.desktops@[desktops.active_desktop as int],
        )
    }

    /// The workspace is restored: first the bus and its generator, then the windows and
    /// the settings, then the subscriptions, and last the active desktop is arranged.
    pub open spec fn is_applied(
        self,
        before: App,
        after: App,
        files: Seq<Vec<Result<FileText, String>>>,
    ) -> bool {
        exists|bus: App, windows: App, settings: App, signals: App, desktops: App|
            #[trigger] self.is_chain(
                before,
                bus,
                windows,
                settings,
                signals,
                desktops,
                after,
                files,
            )
    }

    /// What was read of the databases: one file per saved bus.
    pub open spec fn has_files(self, files: Seq<Vec<Result<FileText, String>>>) -> bool {
        self.channels@.len() > 0 ==> {
            &&& files.len() == self.channels@.len()
            &&& forall|i: int| 0 <= i < files.len() ==> (#[trigger] files[i])@.len() == 1
        }
    }

    /// Overwrites a workspace with the saved one. `files` is what was read of each saved
    /// bus's database.
    pub fn apply(self, app: &mut App, files: &BusFiles)
        requires
            old(app).wf(),
            self.has_files(files@),
        ensures
            final(app).wf(),
            self.is_applied(*old(app), *final(app), files@),
    {
        let ghost cfg = self;
        let ghost start = *app;
        restore_bus(app, self.channels, self.bus_counter, self.tx, files, Ghost(cfg));
        let ghost bus = *app;
        restore_windows(
            app,
            self.trace_windows,
            self.msg_windows,
            self.stats_windows,
            self.graphics,
            self.data_windows,
            Ghost(cfg),
        );
        let ghost windows = *app;
        let panels: Panels = Panels {
            show_tx: self.show_tx,
            show_network: self.show_network,
            show_measurement: self.show_measurement,
            show_buses: self.show_buses,
            show_triggers: self.show_triggers,
            show_bus_stats: self.show_bus_stats,
            show_spec: self.show_spec,
            show_id_filter: self.show_id_filter,
        };
        app.core.triggers = read_rules(self.triggers);
        app.panels = panels;
        app.text_rate_hz = self.text_rate_hz;
        app.trigger_sel = None;
        app.trig_edit_sel = None;
        app.spec_tol_pct = self.spec.tolerance_percent;
        app.spec_grace = if self.spec.grace_cycles == 0 {
            1
        } else {
            self.spec.grace_cycles
        };
        app.replay_speed = clamp_bits(self.replay_speed, HUNDREDTH, HUNDRED);
        app.counters = self.counters;
        app.recent_dbc = self.recent_dbc;
        app.recent_log = self.recent_log;
        let ghost settings = *app;
        assert(cfg.are_settings_restored(windows, settings));
        assert(settings.wf());
        subscribe_windows(app);
        let ghost signals = *app;
        restore_desktops(app, self.desktops, self.active_desktop, Ghost(cfg));
        let ghost desktops = *app;
        let target: Desktop = app.desktops[app.active_desktop].copied();
        app.apply_desktop(&target);
        assert(cfg.is_chain(start, bus, windows, settings, signals, desktops, *app, files@));
    }
}

fn restore_bus(
    app: &mut App,
    channels: Vec<ChannelCfg>,
    counter: usize,
    tx: Vec<TxCfg>,
    files: &BusFiles,
    Ghost(cfg): Ghost<Config>,
)
    requires
        old(app).wf(),
        cfg.has_files(files@),
        cfg.channels == channels,
        cfg.bus_counter == counter,
        cfg.tx == tx,
    ensures
        final(app).wf(),
        cfg.is_bus_restored(*old(app), *final(app), files@),
{
    let ghost start = *app;
    restore_buses(&mut app.core, channels, counter, files);
    let ghost restored = app.core;
    app.core.tx_list = Vec::new();
    let ghost empty = app.core;
    app.core.populate_generator();
    let ghost filled = app.core;
    restore_entries(&mut app.core.tx_list, tx);
    proof {
        assert(empty.is_populated(filled));
        assert(is_generator_rebuilt(restored, app.core, tx@));
        assert(are_buses_restored(start.core, restored, channels@, counter, files@));
    }
}

fn restore_trace(list: &mut Vec<TraceWin>, cfgs: Vec<TraceCfg>)
    requires
        forall|i: int| 0 <= i < old(list)@.len() ==> workspace::is_set(
            (#[trigger] old(list)@[i]).manual@,
        ),
    ensures
        are_traces_restored(*old(list), *final(list), cfgs@),
        forall|i: int| 0 <= i < final(list)@.len() ==> workspace::is_set(
            (#[trigger] final(list)@[i]).manual@,
        ),
{
    if cfgs.len() > 0 {
        *list = trace_windows_of(cfgs);
    }
}

fn restore_msg(list: &mut Vec<MsgWin>, cfgs: Vec<MsgCfg>)
    requires
        forall|i: int| 0 <= i < old(list)@.len() ==> workspace::is_set(
            (#[trigger] old(list)@[i]).manual@,
        ),
    ensures
        are_messages_restored(*old(list), *final(list), cfgs@),
        forall|i: int| 0 <= i < final(list)@.len() ==> workspace::is_set(
            (#[trigger] final(list)@[i]).manual@,
        ),
{
    if cfgs.len() > 0 {
        *list = msg_windows_of(cfgs);
    }
}

fn restore_stats(list: &mut Vec<StatsWin>, cfgs: Vec<StatsCfg>)
    requires
        forall|i: int| 0 <= i < old(list)@.len() ==> workspace::is_set(
            (#[trigger] old(list)@[i]).manual@,
        ),
    ensures
        are_stats_restored(*old(list), *final(list), cfgs@),
        forall|i: int| 0 <= i < final(list)@.len() ==> workspace::is_set(
            (#[trigger] final(list)@[i]).manual@,
        ),
{
    if cfgs.len() > 0 {
        *list = stats_windows_of(cfgs);
    }
}

fn restore_graphics(list: &mut Vec<GraphicsWindow>, cfgs: Vec<GfxCfg>)
    ensures
        are_plots_restored(*old(list), *final(list), cfgs@),
{
    if cfgs.len() > 0 {
        *list = graphics_of(cfgs);
    }
}

fn restore_data(list: &mut Vec<DataWindow>, cfgs: Vec<DataCfg>)
    ensures
        are_tables_restored(*old(list), *final(list), cfgs@),
{
    if cfgs.len() > 0 {
        *list = data_windows_of(cfgs);
    }
}

fn restore_windows(
    app: &mut App,
    trace: Vec<TraceCfg>,
    msg: Vec<MsgCfg>,
    stats: Vec<StatsCfg>,
    graphics: Vec<GfxCfg>,
    data: Vec<DataCfg>,
    Ghost(cfg): Ghost<Config>,
)
    requires
        old(app).wf(),
        cfg.trace_windows == trace,
        cfg.msg_windows == msg,
        cfg.stats_windows == stats,
        cfg.graphics == graphics,
        cfg.data_windows == data,
    ensures
        final(app).wf(),
        cfg.are_windows_restored(*old(app), *final(app)),
{
    restore_trace(&mut app.trace_windows, trace);
    restore_msg(&mut app.msg_windows, msg);
    restore_stats(&mut app.stats_windows, stats);
    restore_graphics(&mut app.graphics, graphics);
    restore_data(&mut app.data_windows, data);
}

fn restore_desktops(
    app: &mut App,
    desktops: Vec<DesktopCfg>,
    active: usize,
    Ghost(cfg): Ghost<Config>,
)
    requires
        old(app).wf(),
        cfg.desktops == desktops,
        cfg.active_desktop == active,
    ensures
        final(app).wf(),
        final(app).active_desktop < final(app).desktops@.len(),
        cfg.are_desktops_restored(*old(app), *final(app)),
{
    let count: usize = desktops.len();
    if count > 0 {
        app.desktops = desktops_of(desktops);
        app.active_desktop = if active < count {
            active
        } else {
            count - 1
        };
    } else {
        let mut snap: Desktop = app.desktop_snapshot();
        snap.name = "Desktop 1".to_owned();
        let mut one: Vec<Desktop> = Vec::new();
        one.push(snap);
        app.desktops = one;
        app.active_desktop = 0;
    }
}

fn subscribe_windows(app: &mut App)
    requires
        old(app).wf(),
    ensures
        final(app).wf(),
        Config::are_signals_subscribed(*old(app), *final(app)),
{
    let ghost before = *app;
    let ghost obs = app.core.obs@;
    let ghost channels = app.core.channels@;
    let plots: usize = app.graphics.len();
    for i in 0..plots
        invariant
            plots == before.graphics@.len(),
            before == *old(app),
            obs == before.core.obs@,
            channels == before.core.channels@,
            app.wf(),
            app.core.obs@ == with_graphics(obs, channels, before.graphics@, i as int),
            app.core == (BusCore { obs: app.core.obs, ..before.core }),
            *app == (App { core: app.core, ..before }),
    {
        subscribe_signals(&mut app.core, &app.graphics[i].signals);
    }
    let ghost plotted = app.core.obs@;
    let tables: usize = app.data_windows.len();
    for i in 0..tables
        invariant
            tables == before.data_windows@.len(),
            before == *old(app),
            channels == before.core.channels@,
            app.wf(),
            app.core.obs@ == with_data(plotted, channels, before.data_windows@, i as int),
            app.core == (BusCore { obs: app.core.obs, ..before.core }),
            *app == (App { core: app.core, ..before }),
    {
        subscribe_signals(&mut app.core, &app.data_windows[i].signals);
    }
}

} // verus!
