//! The core's lists that commands edit: replay blocks, script nodes, system
//! variables, trigger rules and hardware attachments.

use vstd::prelude::*;
use vstd::string::*;
use crate::block;
use crate::block::ReplayBlock;
use crate::bus::BusCore;
use crate::bus_channels;
use crate::bus_channels::adopt_orphans;
use crate::bus_ingest;
use crate::bus_ingest::publish_vars;
use crate::bus_run;
use crate::bus_run::{BusAction, LogRead};
use crate::bus_types;
use crate::bus_types::{
    find_node, find_var, keys_of_vars, BlockCfg, Double, FrWatch, HwBus, HwDriver, NodeCfg,
    ScriptNode, SysVar, SysVarDef,
};
use crate::channel;
use crate::dbc::SymbolTable;
use crate::observers;
use crate::observers::{KeyState, SYSVAR_STREAM_ID};
use crate::text;
use crate::triggers::{Trigger, TriggerAction, TriggerCond};

verus! {

/// The first block with that id, or -1.
pub open spec fn block_index(blocks: Seq<ReplayBlock>, id: u64, from: int) -> int
    decreases blocks.len() - from,
{
    if from < 0 || from >= blocks.len() {
        -1
    } else if blocks[from].id == id {
        from
    } else {
        block_index(blocks, id, from + 1)
    }
}

pub fn find_block(blocks: &Vec<ReplayBlock>, id: u64) -> (r: Option<usize>)
    ensures
        r is Some == (block_index(blocks@, id, 0) >= 0),
        r matches Some(i) ==> i == block_index(blocks@, id, 0) && i < blocks@.len(),
{
    for i in 0..blocks.len()
        invariant
            block_index(blocks@, id, 0) == block_index(blocks@, id, i as int),
    {
        if blocks[i].id == id {
            return Some(i);
        }
    }
    None
}

/// A text with a name in back quotes before it and a tail behind it.
pub open spec fn quoted(head: Seq<char>, name: Seq<char>, tail: Seq<char>) -> Seq<char> {
    head + name + tail
}

fn quote(head: &str, name: &str, tail: &str) -> (s: String)
    ensures
        s@ == quoted(head@, name@, tail@),
{
    let mut s: String = head.to_owned();
    s.append(name);
    s.append(tail);
    s
}

/// The blocks without that id.
pub open spec fn without_block(blocks: Seq<ReplayBlock>, id: u64, n: int) -> Seq<ReplayBlock>
    decreases n,
{
    if n <= 0 {
        Seq::empty()
    } else {
        let before = without_block(blocks, id, n - 1);
        if blocks[n - 1].id == id {
            before
        } else {
            before.push(blocks[n - 1])
        }
    }
}

/// The script nodes without that id.
pub open spec fn without_node(nodes: Seq<ScriptNode>, id: u64, n: int) -> Seq<ScriptNode>
    decreases n,
{
    if n <= 0 {
        Seq::empty()
    } else {
        let before = without_node(nodes, id, n - 1);
        if nodes[n - 1].id == id {
            before
        } else {
            before.push(nodes[n - 1])
        }
    }
}

/// A block as a saved declaration makes it.
pub open spec fn is_block_of(b: ReplayBlock, cfg: BlockCfg, id: u64) -> bool {
    &&& b.id == id
    &&& b.name == cfg.name
    &&& b.channel == cfg.channel
    &&& b.path == cfg.path
    &&& b.node_filter == cfg.node_filter
    &&& b.attached == cfg.attached
    &&& b.ids == cfg.ids
    &&& b.enabled == cfg.enabled
    &&& b.last_error is None
    &&& b.queue@.len() == 0
    &&& b.cursor == 0
    &&& b.anchor_us == 0
}

/// The blocks as saved declarations make them, with ids that count on.
pub open spec fn are_blocks_of(blocks: Seq<ReplayBlock>, cfgs: Seq<BlockCfg>, counter: u64) -> bool {
    &&& blocks.len() == cfgs.len()
    &&& forall|i: int|
        0 <= i < cfgs.len() ==> is_block_of(
            #[trigger] blocks[i],
            cfgs[i],
            (counter + i + 1) as u64,
        )
}

/// A script node as a saved declaration makes it. A bound script lives on its
/// node's bus.
pub open spec fn is_node_of(n: ScriptNode, cfg: NodeCfg, id: u64) -> bool {
    &&& n.id == id
    &&& n.name == cfg.name
    &&& n.channel == (match cfg.attached {
        Some(a) => a.0,
        None => cfg.channel,
    })
    &&& n.source == cfg.source
    &&& n.enabled == cfg.enabled
    &&& n.file_path is None
    &&& n.attached == cfg.attached
    &&& !n.running
    &&& !n.errored
    &&& n.log@.len() == 0
}

/// The script nodes as saved declarations make them, with ids that count on. The
/// ones that start at once know the system variables.
pub open spec fn are_nodes_of(
    nodes: Seq<ScriptNode>,
    cfgs: Seq<NodeCfg>,
    counter: u64,
    measuring: bool,
    keys: Seq<Seq<char>>,
) -> bool {
    &&& nodes.len() == cfgs.len()
    &&& forall|i: int|
        0 <= i < cfgs.len() ==> {
            let n = #[trigger] nodes[i];
            &&& is_node_of(n, cfgs[i], (counter + i + 1) as u64)
            &&& text::views(n.sysvar_keys@) == (if measuring && cfgs[i].enabled {
                keys
            } else {
                Seq::empty()
            })
        }
}

/// Every node knows these system variables.
pub open spec fn are_informed(
    before: Seq<ScriptNode>,
    after: Seq<ScriptNode>,
    keys: Seq<Seq<char>>,
) -> bool {
    &&& after.len() == before.len()
    &&& forall|i: int|
        0 <= i < before.len() ==> {
            let n = #[trigger] after[i];
            &&& text::views(n.sysvar_keys@) == keys
            &&& n == (ScriptNode { sysvar_keys: n.sysvar_keys, ..before[i] })
        }
}

fn inform_nodes(nodes: &mut Vec<ScriptNode>, vars: &Vec<SysVar>)
    ensures
        are_informed(old(nodes)@, final(nodes)@, bus_types::var_keys(vars@)),
{
    let total: usize = nodes.len();
    for i in 0..total
        invariant
            total == old(nodes)@.len(),
            nodes@.len() == total,
            forall|k: int|
                0 <= k < i ==> {
                    let n = #[trigger] nodes@[k];
                    &&& text::views(n.sysvar_keys@) == bus_types::var_keys(vars@)
                    &&& n == (ScriptNode { sysvar_keys: n.sysvar_keys, ..old(nodes)@[k] })
                },
            forall|k: int| i <= k < total ==> nodes@[k] == old(nodes)@[k],
    {
        let keys: Vec<String> = keys_of_vars(vars);
        let n: &mut ScriptNode = &mut nodes[i];
        n.sysvar_keys = keys;
    }
}

/// The variables without one.
pub open spec fn without_var(
    vars: Seq<SysVar>,
    namespace: Seq<char>,
    name: Seq<char>,
    n: int,
) -> Seq<SysVar>
    decreases n,
{
    if n <= 0 {
        Seq::empty()
    } else {
        let before = without_var(vars, namespace, name, n - 1);
        if vars[n - 1].def.namespace@ == namespace && vars[n - 1].def.name@ == name {
            before
        } else {
            before.push(vars[n - 1])
        }
    }
}

/// The note on a fresh attachment's CAN FD state.
pub open spec fn fd_note(fd_data_kbps: Option<u32>, fd_active: bool) -> Seq<char> {
    match fd_data_kbps {
        Some(k) => if fd_active {
            "，FD 数据段 "@ + text::decimal(k as int) + " kbit/s"@
        } else {
            "，经典模式（FD 预设不匹配或硬件不支持）"@
        },
        None => Seq::empty(),
    }
}

/// Note about the FD state of a fresh hardware attachment: the active data-phase
/// bitrate, the fallback to classic mode, or nothing for classic buses.
pub fn hw_fd_note(fd_data_kbps: Option<u32>, fd_active: bool) -> (s: String)
    ensures
        s@ == fd_note(fd_data_kbps, fd_active),
{
    match fd_data_kbps {
        Some(k) => if fd_active {
            let mut s: String = "，FD 数据段 ".to_owned();
            text::push_u64(&mut s, k as u64);
            s.append(" kbit/s");
            s
        } else {
            "，经典模式（FD 预设不匹配或硬件不支持）".to_owned()
        },
        None => String::new(),
    }
}

/// How opening a hardware channel went: with init access, only receiving because
/// another program holds the channel, or not at all.
pub enum HwOpen {
    Full { fd: bool },
    ReceiveOnly { fd: bool },
    Failed { init_error: String, error: String },
}

pub open spec fn driver_name(d: HwDriver) -> Seq<char> {
    match d {
        HwDriver::Kvaser => "Kvaser"@,
        HwDriver::Vector => "Vector"@,
    }
}

/// The status line of an attachment.
pub open spec fn attach_status(
    bus: u8,
    driver: HwDriver,
    adapter: i32,
    kbps: u32,
    fd_data_kbps: Option<u32>,
    opened: HwOpen,
) -> Seq<char> {
    match opened {
        HwOpen::Full { fd } => "hardware attached to "@ + text::decimal(bus as int) + ": "@
            + driver_name(driver) + " ch"@ + text::decimal(adapter as int) + " @ "@
            + text::decimal(kbps as int) + " kbit/s (收发)"@ + fd_note(fd_data_kbps, fd),
        HwOpen::ReceiveOnly { fd } => "hardware attached to "@ + text::decimal(bus as int)
            + ": ch"@ + text::decimal(adapter as int) + " @ "@ + text::decimal(kbps as int)
            + " kbit/s（只收——通道被其他程序占用）"@ + fd_note(fd_data_kbps, fd),
        HwOpen::Failed { init_error, error } => "hardware attach failed: "@ + init_error@ + " / "@
            + error@,
    }
}

fn attach_line(
    bus: u8,
    driver: HwDriver,
    adapter: i32,
    kbps: u32,
    fd_data_kbps: Option<u32>,
    opened: &HwOpen,
) -> (s: String)
    ensures
        s@ == attach_status(bus, driver, adapter, kbps, fd_data_kbps, *opened),
{
    match opened {
        HwOpen::Full { fd } => {
            let mut s: String = "hardware attached to ".to_owned();
            text::push_u64(&mut s, bus as u64);
            s.append(": ");
            match driver {
                HwDriver::Kvaser => {
                    s.append("Kvaser");
                },
                HwDriver::Vector => {
                    s.append("Vector");
                },
            }
            s.append(" ch");
            text::push_i64(&mut s, adapter as i64);
            s.append(" @ ");
            text::push_u64(&mut s, kbps as u64);
            s.append(" kbit/s (收发)");
            let note: String = hw_fd_note(fd_data_kbps, *fd);
            s.append(note.as_str());
            s
        },
        HwOpen::ReceiveOnly { fd } => {
            let mut s: String = "hardware attached to ".to_owned();
            text::push_u64(&mut s, bus as u64);
            s.append(": ch");
            text::push_i64(&mut s, adapter as i64);
            s.append(" @ ");
            text::push_u64(&mut s, kbps as u64);
            s.append(" kbit/s（只收——通道被其他程序占用）");
            let note: String = hw_fd_note(fd_data_kbps, *fd);
            s.append(note.as_str());
            s
        },
        HwOpen::Failed { init_error, error } => {
            let mut s: String = "hardware attach failed: ".to_owned();
            s.append(init_error.as_str());
            s.append(" / ");
            s.append(error.as_str());
            s
        },
    }
}

fn detached_line(bus: u8) -> (s: String)
    ensures
        s@ == "hardware detached from bus "@ + text::decimal(bus + 1),
{
    let mut s: String = "hardware detached from bus ".to_owned();
    text::push_u64(&mut s, bus as u64 + 1);
    s
}

fn watch_line(idx: i32) -> (s: String)
    ensures
        s@ == "FlexRay 监听已挂接: Vector ch"@ + text::decimal(idx as int) + "（只收）"@,
{
    let mut s: String = "FlexRay 监听已挂接: Vector ch".to_owned();
    text::push_i64(&mut s, idx as i64);
    s.append("（只收）");
    s
}

/// How many rules are latched.
pub open spec fn latched_count(rules: Seq<Trigger>, n: int) -> int
    decreases n,
{
    if n <= 0 {
        0
    } else {
        latched_count(rules, n - 1) + if rules[n - 1].cond.latches() && rules[n - 1].level {
            1int
        } else {
            0int
        }
    }
}

fn counted_line(head: &str, n: u64, tail: &str) -> (s: String)
    ensures
        s@ == head@ + text::decimal(n as int) + tail@,
{
    let mut s: String = head.to_owned();
    text::push_u64(&mut s, n);
    s.append(tail);
    s
}

impl BusCore {
    /// A block is added, disabled: nothing transmits until the user says so.
    pub open spec fn is_block_added(self, after: BusCore, cfg: BlockCfg, status: Seq<char>) -> bool {
        let id = (self.block_counter + 1) as u64;
        &&& after.block_counter == id
        &&& after.replay_blocks@.len() == self.replay_blocks@.len() + 1
        &&& after.replay_blocks@.drop_last() == self.replay_blocks@
        &&& is_block_of(after.replay_blocks@.last(), BlockCfg { enabled: false, ..cfg }, id)
        &&& after.nodes_dirty
        &&& status == quoted("replay block `"@, cfg.name@, "` added (disabled)"@)
        &&& after == (BusCore {
            block_counter: after.block_counter,
            replay_blocks: after.replay_blocks,
            nodes_dirty: true,
            ..self
        })
    }

    /// Adds a replay block.
    pub fn add_replay_block(&mut self, cfg: BlockCfg, status: &mut String)
        requires
            old(self).wf(),
            old(self).block_counter < u64::MAX,
        ensures
            final(self).wf(),
            old(self).is_block_added(*final(self), cfg, final(status)@),
    {
        let ghost before = self.replay_blocks@;
        self.block_counter = self.block_counter + 1;
        *status = quote("replay block `", cfg.name.as_str(), "` added (disabled)");
        let b: ReplayBlock = ReplayBlock::new(
            self.block_counter,
            cfg.name,
            cfg.channel,
            cfg.path,
            cfg.node_filter,
            cfg.attached,
            cfg.ids,
            false,
        );
        self.replay_blocks.push(b);
        self.nodes_dirty = true;
        assert(self.replay_blocks@.drop_last() =~= before);
        assert forall|i: int| 0 <= i < self.replay_blocks@.len() implies (
        #[trigger] self.replay_blocks@[i]).wf() by {
            if i < before.len() {
                assert(self.replay_blocks@.drop_last()[i] == self.replay_blocks@[i]);
                assert(before[i].wf());
            }
        }
    }

    /// The block with another declaration, its runtime as it was.
    pub open spec fn redeclared(b: ReplayBlock, cfg: BlockCfg) -> ReplayBlock {
        ReplayBlock {
            name: cfg.name,
            channel: cfg.channel,
            path: cfg.path,
            node_filter: cfg.node_filter,
            attached: cfg.attached,
            ids: cfg.ids,
            ..b
        }
    }

    /// A block's declaration is replaced; an enabled block reloads its queue at
    /// once.
    pub open spec fn is_block_set(
        self,
        after: BusCore,
        id: u64,
        cfg: BlockCfg,
        log: LogRead,
        status_before: Seq<char>,
        status: Seq<char>,
    ) -> bool {
        let k = block_index(self.replay_blocks@, id, 0);
        if k < 0 {
            after == self && status == status_before
        } else {
            let now = after.replay_blocks@[k];
            let mid = BusCore::redeclared(self.replay_blocks@[k], cfg);
            &&& after.replay_blocks@ == self.replay_blocks@.update(k, now)
            &&& if mid.enabled {
                mid.is_reloaded(
                    now,
                    channel::table_on(self.channels@, cfg.channel),
                    log,
                    self.sim_t_us,
                )
            } else {
                now == mid
            }
            &&& after.nodes_dirty
            &&& status == quoted("replay block `"@, cfg.name@, "` updated"@)
            &&& after == (BusCore {
                replay_blocks: after.replay_blocks,
                nodes_dirty: true,
                ..self
            })
        }
    }

    /// Rewrites one block's declaration. `log` is what was read of its log, where
    /// the block is enabled.
    pub fn set_replay_block(&mut self, id: u64, cfg: BlockCfg, log: LogRead, status: &mut String)
        requires
            old(self).wf(),
            ({
                let k = block_index(old(self).replay_blocks@, id, 0);
                k >= 0 && old(self).replay_blocks@[k].enabled ==> bus_run::log_fits(
                    BusCore::redeclared(old(self).replay_blocks@[k], cfg),
                    channel::table_on(old(self).channels@, cfg.channel),
                    log,
                )
            }),
        ensures
            final(self).wf(),
            old(self).is_block_set(
                *final(self),
                id,
                cfg,
                log,
                old(status)@,
                final(status)@,
            ),
    {
        let k: usize = match find_block(&self.replay_blocks, id) {
            Some(k) => k,
            None => {
                return;
            },
        };
        let ghost before = self.replay_blocks@;
        *status = quote("replay block `", cfg.name.as_str(), "` updated");
        let table: Option<&SymbolTable> = channel::channel_dbc(&self.channels, cfg.channel);
        assert(block::read_table(table) == channel::table_on(self.channels@, cfg.channel));
        assert(before[k as int].wf());
        let ghost mid = BusCore::redeclared(before[k as int], cfg);
        let now: u64 = self.sim_t_us;
        let b: &mut ReplayBlock = &mut self.replay_blocks[k];
        b.name = cfg.name;
        b.channel = cfg.channel;
        b.path = cfg.path;
        b.node_filter = cfg.node_filter;
        b.attached = cfg.attached;
        b.ids = cfg.ids;
        assert(*b == mid);
        if b.enabled {
            b.load_queue(table, log, now);
        }
        self.nodes_dirty = true;
        assert(self.replay_blocks@ =~= before.update(k as int, self.replay_blocks@[k as int]));
        assert forall|i: int| 0 <= i < self.replay_blocks@.len() implies (
        #[trigger] self.replay_blocks@[i]).wf() by {
            assert(before[i].wf());
        }
    }

    /// The status line of a block's toggle.
    pub open spec fn toggle_status(b: ReplayBlock, on: bool) -> Seq<char> {
        if !on {
            quoted("replay block `"@, b.name@, "` off"@)
        } else {
            match b.last_error {
                Some(e) => quoted("replay block `"@, b.name@, "`: "@) + e@,
                None => quoted("replay block `"@, b.name@, "` on ("@) + text::decimal(
                    b.queue@.len() as int,
                ) + " frame(s))"@,
            }
        }
    }

    /// A block is toggled; switching it on loads its queue right away.
    pub open spec fn is_block_toggled(
        self,
        after: BusCore,
        id: u64,
        on: bool,
        log: LogRead,
        status_before: Seq<char>,
        status: Seq<char>,
    ) -> bool {
        let k = block_index(self.replay_blocks@, id, 0);
        if k < 0 {
            after == self && status == status_before
        } else {
            let now = after.replay_blocks@[k];
            let mid = ReplayBlock { enabled: on, ..self.replay_blocks@[k] };
            &&& after.replay_blocks@ == self.replay_blocks@.update(k, now)
            &&& if on {
                mid.is_reloaded(
                    now,
                    channel::table_on(self.channels@, mid.channel),
                    log,
                    self.sim_t_us,
                )
            } else {
                now == mid
            }
            &&& after.nodes_dirty
            &&& status == BusCore::toggle_status(now, on)
            &&& after == (BusCore {
                replay_blocks: after.replay_blocks,
                nodes_dirty: true,
                ..self
            })
        }
    }

    fn toggle_line(b: &ReplayBlock, on: bool) -> (s: String)
        ensures
            s@ == BusCore::toggle_status(*b, on),
    {
        if !on {
            quote("replay block `", b.name.as_str(), "` off")
        } else {
            match &b.last_error {
                Some(e) => {
                    let mut s: String = quote("replay block `", b.name.as_str(), "`: ");
                    s.append(e.as_str());
                    s
                },
                None => {
                    let mut s: String = quote("replay block `", b.name.as_str(), "` on (");
                    text::push_u64(&mut s, b.queue.len() as u64);
                    s.append(" frame(s))");
                    s
                },
            }
        }
    }

    /// Toggles a block. `log` is what was read of its log, where it goes on: a
    /// broken path surfaces now, not silently at the next start.
    pub fn set_replay_block_enabled(
        &mut self,
        id: u64,
        on: bool,
        log: LogRead,
        status: &mut String,
    )
        requires
            old(self).wf(),
            ({
                let k = block_index(old(self).replay_blocks@, id, 0);
                k >= 0 && on ==> bus_run::log_fits(
                    old(self).replay_blocks@[k],
                    channel::table_on(
                        old(self).channels@,
                        old(self).replay_blocks@[k].channel,
                    ),
                    log,
                )
            }),
        ensures
            final(self).wf(),
            old(self).is_block_toggled(
                *final(self),
                id,
                on,
                log,
                old(status)@,
                final(status)@,
            ),
    {
        let k: usize = match find_block(&self.replay_blocks, id) {
            Some(k) => k,
            None => {
                return;
            },
        };
        let ghost before = self.replay_blocks@;
        assert(before[k as int].wf());
        let table: Option<&SymbolTable> = channel::channel_dbc(
            &self.channels,
            self.replay_blocks[k].channel,
        );
        assert(block::read_table(table) == channel::table_on(
            self.channels@,
            before[k as int].channel,
        ));
        let now: u64 = self.sim_t_us;
        let b: &mut ReplayBlock = &mut self.replay_blocks[k];
        b.enabled = on;
        if on {
            b.load_queue(table, log, now);
        }
        *status = BusCore::toggle_line(&self.replay_blocks[k], on);
        self.nodes_dirty = true;
        assert(self.replay_blocks@ =~= before.update(k as int, self.replay_blocks@[k as int]));
        assert forall|i: int| 0 <= i < self.replay_blocks@.len() implies (
        #[trigger] self.replay_blocks@[i]).wf() by {
            assert(before[i].wf());
        }
    }

    /// Removes a replay block.
    pub fn remove_replay_block(&mut self, id: u64)
        requires
            old(self).wf(),
        ensures
            final(self).wf(),
            final(self).replay_blocks@ == without_block(
                old(self).replay_blocks@,
                id,
                old(self).replay_blocks@.len() as int,
            ),
            *final(self) == (BusCore {
                replay_blocks: final(self).replay_blocks,
                nodes_dirty: true,
                ..*old(self)
            }),
    {
        let mut all: Vec<ReplayBlock> = Vec::new();
        std::mem::swap(&mut all, &mut self.replay_blocks);
        let ghost before = all@;
        let mut kept: Vec<ReplayBlock> = Vec::new();
        for b in it: all
            invariant
                it.seq() == before,
                before == old(self).replay_blocks@,
                old(self).wf(),
                forall|i: int| 0 <= i < kept@.len() ==> (#[trigger] kept@[i]).wf(),
                kept@ == without_block(before, id, it.index() as int),
        {
            assert(before[it.index() as int].wf());
            if b.id != id {
                kept.push(b);
            }
        }
        self.replay_blocks = kept;
        self.nodes_dirty = true;
    }

    /// The block list is replaced from saved declarations; enabled blocks load
    /// their queues.
    pub open spec fn are_blocks_set(
        self,
        after: BusCore,
        cfgs: Seq<BlockCfg>,
        logs: Seq<LogRead>,
    ) -> bool {
        exists|made: Seq<ReplayBlock>|
            {
                &&& #[trigger] are_blocks_of(made, cfgs, self.block_counter)
                &&& bus_run::are_reloaded(
                    made,
                    after.replay_blocks@,
                    self.channels@,
                    logs,
                    self.sim_t_us,
                )
                &&& after.block_counter == self.block_counter + cfgs.len()
                &&& after.nodes_dirty
                &&& after == (BusCore {
                    replay_blocks: after.replay_blocks,
                    block_counter: after.block_counter,
                    nodes_dirty: true,
                    ..self
                })
            }
    }

    /// The logs fit the blocks that the declarations make.
    pub open spec fn cfg_logs_fit(self, cfgs: Seq<BlockCfg>, logs: Seq<LogRead>) -> bool {
        &&& logs.len() == cfgs.len()
        &&& forall|made: Seq<ReplayBlock>|
            #[trigger] are_blocks_of(made, cfgs, self.block_counter) ==> bus_run::logs_fit(
                made,
                self.channels@,
                logs,
            )
    }

    /// Replaces the block list from saved declarations. `logs` is what was read of
    /// each block's log.
    pub fn set_replay_blocks(&mut self, cfgs: Vec<BlockCfg>, logs: Vec<LogRead>)
        requires
            old(self).wf(),
            old(self).block_counter + cfgs@.len() <= u64::MAX,
            old(self).cfg_logs_fit(cfgs@, logs@),
        ensures
            final(self).wf(),
            old(self).are_blocks_set(*final(self), cfgs@, logs@),
    {
        let ghost all = cfgs@;
        let start: u64 = self.block_counter;
        let mut made: Vec<ReplayBlock> = Vec::new();
        let total: usize = cfgs.len();
        for cfg in it: cfgs
            invariant
                it.seq() == all,
                total == all.len(),
                start == old(self).block_counter,
                old(self).block_counter + all.len() <= u64::MAX,
                self.block_counter == start + it.index(),
                *self == (BusCore { block_counter: self.block_counter, ..*old(self) }),
                made@.len() == it.index(),
                forall|i: int| 0 <= i < made@.len() ==> (#[trigger] made@[i]).wf(),
                forall|i: int|
                    0 <= i < made@.len() ==> is_block_of(
                        #[trigger] made@[i],
                        all[i],
                        (start + i + 1) as u64,
                    ),
        {
            assert(cfg == all[it.index() as int]);
            self.block_counter = self.block_counter + 1;
            let b: ReplayBlock = ReplayBlock::new(
                self.block_counter,
                cfg.name,
                cfg.channel,
                cfg.path,
                cfg.node_filter,
                cfg.attached,
                cfg.ids,
                cfg.enabled,
            );
            made.push(b);
        }
        let ghost fresh = made@;
        assert(are_blocks_of(fresh, all, start));
        bus_run::load_blocks(&mut made, &self.channels, logs, self.sim_t_us);
        self.replay_blocks = made;
        self.nodes_dirty = true;
    }

    /// A script node is added, bound where a binding is given.
    pub open spec fn is_node_added(
        self,
        after: BusCore,
        name: String,
        ch: u8,
        attached: Option<(u8, String)>,
        actions: Seq<BusAction>,
    ) -> bool {
        let id = (self.node_counter + 1) as u64;
        let n = after.nodes@.last();
        let cfg = NodeCfg { name, channel: ch, source: n.source, enabled: true, attached };
        &&& after.node_counter == id
        &&& after.nodes@.len() == self.nodes@.len() + 1
        &&& after.nodes@.drop_last() == self.nodes@
        &&& is_node_of(n, cfg, id)
        &&& n.source@.len() == 0
        &&& text::views(n.sysvar_keys@) == (if self.measuring {
            bus_types::var_keys(self.sysvars@)
        } else {
            Seq::empty()
        })
        &&& actions == (if self.measuring {
            seq![BusAction::StartNode(id)]
        } else {
            Seq::empty()
        })
        &&& after.nodes_dirty
        &&& after == (BusCore {
            node_counter: after.node_counter,
            nodes: after.nodes,
            nodes_dirty: true,
            ..self
        })
    }

    /// Adds a script node; it starts with the next measurement, or at once if one
    /// is running. A bound script lives on its node's bus.
    pub fn add_node(&mut self, name: String, ch: u8, attached: Option<(u8, String)>) -> (actions:
        Vec<BusAction>)
        requires
            old(self).wf(),
            old(self).node_counter < u64::MAX,
        ensures
            final(self).wf(),
            old(self).is_node_added(*final(self), name, ch, attached, actions@),
    {
        let ghost before = self.nodes@;
        self.node_counter = self.node_counter + 1;
        let id: u64 = self.node_counter;
        let bus: u8 = match &attached {
            Some(a) => a.0,
            None => ch,
        };
        let keys: Vec<String> = if self.measuring {
            keys_of_vars(&self.sysvars)
        } else {
            Vec::new()
        };
        assert(!self.measuring ==> text::views(keys@) =~= Seq::<Seq<char>>::empty());
        let n: ScriptNode = ScriptNode {
            id,
            name,
            channel: bus,
            source: String::new(),
            enabled: true,
            file_path: None,
            attached,
            sysvar_keys: keys,
            running: false,
            errored: false,
            log: Vec::new(),
        };
        self.nodes.push(n);
        assert(self.nodes@.drop_last() =~= before);
        let mut actions: Vec<BusAction> = Vec::new();
        if self.measuring {
            actions.push(BusAction::StartNode(id));
            assert(actions@ =~= seq![BusAction::StartNode(id)]);
        }
        self.nodes_dirty = true;
        actions
    }

    /// Removes a script node; its derived streams have no future emitter.
    pub fn remove_node(&mut self, id: u64)
        requires
            old(self).wf(),
        ensures
            final(self).wf(),
            final(self).nodes@ == without_node(
                old(self).nodes@,
                id,
                old(self).nodes@.len() as int,
            ),
            final(self).obs@.streams == observers::kept_streams(
                old(self).obs@.streams,
                |s: (KeyState, Seq<char>)| !observers::is_owned(s.0.id, id),
                old(self).obs@.streams.len() as int,
            ),
            final(self).obs.subs == old(self).obs.subs,
            final(self).obs.color_counter == old(self).obs.color_counter,
            *final(self) == (BusCore {
                nodes: final(self).nodes,
                obs: final(self).obs,
                nodes_dirty: true,
                ..*old(self)
            }),
    {
        let mut all: Vec<ScriptNode> = Vec::new();
        std::mem::swap(&mut all, &mut self.nodes);
        let ghost before = all@;
        let mut kept: Vec<ScriptNode> = Vec::new();
        for n in it: all
            invariant
                it.seq() == before,
                kept@ == without_node(before, id, it.index() as int),
        {
            if n.id != id {
                kept.push(n);
            }
        }
        self.nodes = kept;
        self.obs.close_owner(id);
        self.nodes_dirty = true;
    }

    /// A node is renamed, and its streams with it.
    pub open spec fn is_node_renamed(self, after: BusCore, id: u64, name: String) -> bool {
        let k = bus_types::node_index(self.nodes@, id, 0);
        if k < 0 {
            after == self
        } else {
            &&& after.nodes@ == self.nodes@.update(
                k,
                ScriptNode { name, ..self.nodes@[k] },
            )
            &&& after.obs@.streams == observers::renamed_streams(
                self.obs@.streams,
                id,
                name@,
            )
            &&& after.obs.subs == self.obs.subs
            &&& after.obs.color_counter == self.obs.color_counter
            &&& after == (BusCore {
                nodes: after.nodes,
                obs: after.obs,
                nodes_dirty: true,
                ..self
            })
        }
    }

    /// Renames a script node.
    pub fn set_node_name(&mut self, id: u64, name: String)
        requires
            old(self).wf(),
        ensures
            final(self).wf(),
            old(self).is_node_renamed(*final(self), id, name),
    {
        match find_node(&self.nodes, id) {
            Some(k) => {
                let ghost before = self.nodes@;
                self.obs.rename_owner(id, name.as_str());
                let n: &mut ScriptNode = &mut self.nodes[k];
                n.name = name;
                assert(self.nodes@ =~= before.update(
                    k as int,
                    ScriptNode { name, ..before[k as int] },
                ));
                self.nodes_dirty = true;
            },
            None => {},
        }
    }

    /// A node's source is replaced; while measuring it starts anew, otherwise the
    /// edit waits.
    pub open spec fn is_source_set(
        self,
        after: BusCore,
        id: u64,
        source: String,
        actions: Seq<BusAction>,
    ) -> bool {
        let k = bus_types::node_index(self.nodes@, id, 0);
        if k < 0 {
            after == self && actions.len() == 0
        } else {
            let now = after.nodes@[k];
            &&& after.nodes@ == self.nodes@.update(k, now)
            &&& now == (ScriptNode { source, sysvar_keys: now.sysvar_keys, ..self.nodes@[k] })
            &&& text::views(now.sysvar_keys@) == bus_types::var_keys(self.sysvars@)
            &&& after == (BusCore { nodes: after.nodes, nodes_dirty: true, ..self })
            &&& actions == (if self.measuring && now.enabled {
                seq![BusAction::StartNode(id)]
            } else {
                Seq::empty()
            })
        }
    }

    /// Replaces a script node's source.
    pub fn set_node_source(&mut self, id: u64, source: String) -> (actions: Vec<BusAction>)
        requires
            old(self).wf(),
        ensures
            final(self).wf(),
            old(self).is_source_set(*final(self), id, source, actions@),
    {
        let mut actions: Vec<BusAction> = Vec::new();
        match find_node(&self.nodes, id) {
            Some(k) => {
                let ghost before = self.nodes@;
                let keys: Vec<String> = keys_of_vars(&self.sysvars);
                let n: &mut ScriptNode = &mut self.nodes[k];
                n.source = source;
                n.sysvar_keys = keys;
                assert(self.nodes@ =~= before.update(k as int, self.nodes@[k as int]));
                if self.measuring && self.nodes[k].enabled {
                    actions.push(BusAction::StartNode(id));
                    assert(actions@ =~= seq![BusAction::StartNode(id)]);
                }
                self.nodes_dirty = true;
            },
            None => {},
        }
        actions
    }

    /// A node is switched on or off; while measuring it starts or stops with the
    /// switch.
    pub open spec fn is_node_enabled(
        self,
        after: BusCore,
        id: u64,
        on: bool,
        actions: Seq<BusAction>,
    ) -> bool {
        let k = bus_types::node_index(self.nodes@, id, 0);
        if k < 0 {
            after == self && actions.len() == 0
        } else {
            let now = after.nodes@[k];
            &&& after.nodes@ == self.nodes@.update(k, now)
            &&& now == (ScriptNode {
                enabled: on,
                sysvar_keys: now.sysvar_keys,
                ..self.nodes@[k]
            })
            &&& text::views(now.sysvar_keys@) == bus_types::var_keys(self.sysvars@)
            &&& after == (BusCore { nodes: after.nodes, nodes_dirty: true, ..self })
            &&& actions == (if self.measuring {
                seq![
                    if on {
                        BusAction::StartNode(id)
                    } else {
                        BusAction::StopNode(id)
                    },
                ]
            } else {
                Seq::empty()
            })
        }
    }

    /// Switches a script node on or off.
    pub fn set_node_enabled(&mut self, id: u64, on: bool) -> (actions: Vec<BusAction>)
        requires
            old(self).wf(),
        ensures
            final(self).wf(),
            old(self).is_node_enabled(*final(self), id, on, actions@),
    {
        let mut actions: Vec<BusAction> = Vec::new();
        match find_node(&self.nodes, id) {
            Some(k) => {
                let ghost before = self.nodes@;
                let keys: Vec<String> = keys_of_vars(&self.sysvars);
                let n: &mut ScriptNode = &mut self.nodes[k];
                n.enabled = on;
                n.sysvar_keys = keys;
                assert(self.nodes@ =~= before.update(k as int, self.nodes@[k as int]));
                if self.measuring {
                    let a: BusAction = if on {
                        BusAction::StartNode(id)
                    } else {
                        BusAction::StopNode(id)
                    };
                    actions.push(a);
                    assert(actions@ =~= seq![a]);
                }
                self.nodes_dirty = true;
            },
            None => {},
        }
        actions
    }

    /// The node list is replaced from saved declarations: unbound scripts are
    /// adopted, derived streams lose their owners, and the system variables
    /// publish their live values again.
    pub open spec fn are_nodes_set(
        self,
        after: BusCore,
        cfgs: Seq<NodeCfg>,
        actions: Seq<BusAction>,
    ) -> bool {
        exists|made: Seq<ScriptNode>|
            {
                let closed = observers::Watch { streams: Seq::empty(), ..self.obs@ };
                &&& #[trigger] are_nodes_of(
                    made,
                    cfgs,
                    self.node_counter,
                    self.measuring,
                    bus_types::var_keys(self.sysvars@),
                )
                &&& after.nodes@ == bus_channels::all_hosted(
                    made,
                    self.channels@,
                    self.channels@.len() as int,
                )
                &&& after.node_counter == self.node_counter + cfgs.len()
                &&& after.obs@ == bus_ingest::with_vars(
                    closed,
                    self.channels@,
                    self.sysvars@,
                    self.sim_t_us,
                    self.applied_stride_us,
                    self.sysvars@.len() as int,
                )
                &&& actions == (if self.measuring {
                    bus_run::node_starts(made, made.len() as int)
                } else {
                    Seq::empty()
                })
                &&& after == (BusCore {
                    nodes: after.nodes,
                    node_counter: after.node_counter,
                    obs: after.obs,
                    nodes_dirty: true,
                    ..self
                })
            }
    }

    /// Replaces the node list from saved declarations.
    pub fn set_nodes(&mut self, cfgs: Vec<NodeCfg>) -> (actions: Vec<BusAction>)
        requires
            old(self).wf(),
            old(self).node_counter + cfgs@.len() <= u64::MAX,
        ensures
            final(self).wf(),
            old(self).are_nodes_set(*final(self), cfgs@, actions@),
    {
        let ghost all = cfgs@;
        let ghost keys = bus_types::var_keys(self.sysvars@);
        let start: u64 = self.node_counter;
        let mut made: Vec<ScriptNode> = Vec::new();
        let mut actions: Vec<BusAction> = Vec::new();
        let total: usize = cfgs.len();
        for cfg in it: cfgs
            invariant
                it.seq() == all,
                total == all.len(),
                start == old(self).node_counter,
                keys == bus_types::var_keys(old(self).sysvars@),
                old(self).node_counter + all.len() <= u64::MAX,
                self.node_counter == start + it.index(),
                *self == (BusCore { node_counter: self.node_counter, ..*old(self) }),
                made@.len() == it.index(),
                forall|i: int|
                    0 <= i < made@.len() ==> {
                        let n = #[trigger] made@[i];
                        &&& is_node_of(n, all[i], (start + i + 1) as u64)
                        &&& text::views(n.sysvar_keys@) == (if old(self).measuring
                            && all[i].enabled {
                            keys
                        } else {
                            Seq::empty()
                        })
                    },
                actions@ == (if old(self).measuring {
                    bus_run::node_starts(made@, made@.len() as int)
                } else {
                    Seq::empty()
                }),
        {
            assert(cfg == all[it.index() as int]);
            self.node_counter = self.node_counter + 1;
            let id: u64 = self.node_counter;
            let bus: u8 = match &cfg.attached {
                Some(a) => a.0,
                None => cfg.channel,
            };
            let starts: bool = self.measuring && cfg.enabled;
            let names: Vec<String> = if starts {
                keys_of_vars(&self.sysvars)
            } else {
                Vec::new()
            };
            assert(!starts ==> text::views(names@) =~= Seq::<Seq<char>>::empty());
            let ghost held = made@;
            let n: ScriptNode = ScriptNode {
                id,
                name: cfg.name,
                channel: bus,
                source: cfg.source,
                enabled: cfg.enabled,
                file_path: None,
                attached: cfg.attached,
                sysvar_keys: names,
                running: false,
                errored: false,
                log: Vec::new(),
            };
            made.push(n);
            proof {
                lemma_starts_prefix(held, made@, held.len() as int);
            }
            if starts {
                actions.push(BusAction::StartNode(id));
            }
        }
        let ghost fresh = made@;
        assert(are_nodes_of(fresh, all, start, old(self).measuring, keys));
        let buses: usize = self.channels.len();
        for ch in 0..buses
            invariant
                buses == self.channels@.len(),
                made@ == bus_channels::all_hosted(fresh, self.channels@, ch as int),
        {
            let table: Option<&SymbolTable> = match &self.channels[ch].dbc {
                Some(t) => Some(t),
                None => None,
            };
            adopt_orphans(&mut made, ch, table);
        }
        self.nodes = made;
        let ghost before = self.obs@;
        self.obs.streams = Vec::new();
        assert(self.obs@.streams =~= Seq::<(KeyState, Seq<char>)>::empty());
        assert(self.obs@ == (observers::Watch { streams: Seq::empty(), ..before }));
        publish_vars(
            &mut self.obs,
            &self.channels,
            &self.sysvars,
            self.sim_t_us,
            self.applied_stride_us,
        );
        self.nodes_dirty = true;
        actions
    }

    /// A system variable is defined, or an existing definition of its key
    /// replaced; its value goes to the declared one and is published.
    pub open spec fn is_var_defined(self, after: BusCore, def: SysVarDef) -> bool {
        let k = bus_types::var_index(self.sysvars@, def.key_spec(), 0);
        let v = SysVar { def, value: def.init };
        let stream = observers::stream_key(0, SYSVAR_STREAM_ID, def.name@);
        &&& after.sysvars@ == (if k >= 0 {
            self.sysvars@.update(k, v)
        } else {
            self.sysvars@.push(v)
        })
        &&& are_informed(self.nodes@, after.nodes@, bus_types::var_keys(after.sysvars@))
        &&& after.obs@ == self.obs@.emitted(
            stream,
            def.namespace@,
            bus_ingest::meta_by(self.channels@, stream),
            def.init.bits,
            def.init.whole,
            self.sim_t_us,
            self.applied_stride_us,
        )
        &&& after == (BusCore {
            sysvars: after.sysvars,
            nodes: after.nodes,
            obs: after.obs,
            nodes_dirty: true,
            ..self
        })
    }

    /// Defines a system variable.
    pub fn define_sysvar(&mut self, def: SysVarDef)
        requires
            old(self).wf(),
        ensures
            final(self).wf(),
            old(self).is_var_defined(*final(self), def),
    {
        let key: String = def.key();
        let init: Double = def.init;
        let namespace: String = def.namespace.clone();
        let name: String = def.name.clone();
        match find_var(&self.sysvars, key.as_str()) {
            Some(k) => {
                self.sysvars.set(k, SysVar { def, value: init });
            },
            None => {
                self.sysvars.push(SysVar { def, value: init });
            },
        }
        inform_nodes(&mut self.nodes, &self.sysvars);
        self.ingest_emitted(
            0,
            SYSVAR_STREAM_ID,
            namespace.as_str(),
            name.as_str(),
            init,
        );
        self.nodes_dirty = true;
    }

    /// A system variable is dropped, and with it its stream.
    pub open spec fn is_var_deleted(
        self,
        after: BusCore,
        namespace: Seq<char>,
        name: Seq<char>,
    ) -> bool {
        let kept = without_var(self.sysvars@, namespace, name, self.sysvars@.len() as int);
        if kept.len() == self.sysvars@.len() {
            after == (BusCore { sysvars: after.sysvars, ..self }) && after.sysvars@ == kept
        } else {
            &&& after.sysvars@ == kept
            &&& are_informed(self.nodes@, after.nodes@, bus_types::var_keys(kept))
            &&& after.obs@.streams == observers::kept_streams(
                self.obs@.streams,
                |s: (KeyState, Seq<char>)|
                    !(s.0.id == observers::stream_id(SYSVAR_STREAM_ID) && s.0.signal == name
                        && s.1 == namespace),
                self.obs@.streams.len() as int,
            )
            &&& after.obs.subs == self.obs.subs
            &&& after.obs.color_counter == self.obs.color_counter
            &&& after == (BusCore {
                sysvars: after.sysvars,
                nodes: after.nodes,
                obs: after.obs,
                nodes_dirty: true,
                ..self
            })
        }
    }

    /// Drops a system variable.
    pub fn delete_sysvar(&mut self, namespace: &str, name: &str)
        requires
            old(self).wf(),
        ensures
            final(self).wf(),
            old(self).is_var_deleted(*final(self), namespace@, name@),
    {
        let mut all: Vec<SysVar> = Vec::new();
        std::mem::swap(&mut all, &mut self.sysvars);
        let ghost before = all@;
        let count: usize = all.len();
        let mut kept: Vec<SysVar> = Vec::new();
        for v in it: all
            invariant
                it.seq() == before,
                kept@ == without_var(before, namespace@, name@, it.index() as int),
        {
            let same: bool = text::same_text(v.def.namespace.as_str(), namespace)
                && text::same_text(v.def.name.as_str(), name);
            if !same {
                kept.push(v);
            }
        }
        self.sysvars = kept;
        if self.sysvars.len() != count {
            inform_nodes(&mut self.nodes, &self.sysvars);
            self.obs.close_variable(namespace, name);
            self.nodes_dirty = true;
        }
    }

    /// Appends a trigger rule.
    pub fn add_trigger(&mut self, cond: TriggerCond, action: TriggerAction)
        requires
            old(self).wf(),
        ensures
            final(self).wf(),
            final(self).triggers@ == old(self).triggers@.push(
                Trigger {
                    cond,
                    action,
                    enabled: true,
                    level: false,
                    fired: 0,
                    last_fire_t_us: 0,
                },
            ),
            *final(self) == (BusCore { triggers: final(self).triggers, ..*old(self) }),
    {
        self.triggers.push(Trigger::new(cond, action));
    }

    /// Drops a trigger rule, where there is one at the index.
    pub fn remove_trigger(&mut self, index: usize)
        requires
            old(self).wf(),
        ensures
            final(self).wf(),
            final(self).triggers@ == (if index < old(self).triggers@.len() {
                old(self).triggers@.remove(index as int)
            } else {
                old(self).triggers@
            }),
            *final(self) == (BusCore { triggers: final(self).triggers, ..*old(self) }),
    {
        if index < self.triggers.len() {
            self.triggers.remove(index);
        }
    }

    /// Flips one rule's enable switch.
    pub fn set_trigger_enabled(&mut self, index: usize, on: bool)
        requires
            old(self).wf(),
        ensures
            final(self).wf(),
            final(self).triggers@ == (if index < old(self).triggers@.len() {
                old(self).triggers@.update(
                    index as int,
                    Trigger { enabled: on, ..old(self).triggers@[index as int] },
                )
            } else {
                old(self).triggers@
            }),
            *final(self) == (BusCore { triggers: final(self).triggers, ..*old(self) }),
    {
        if index < self.triggers.len() {
            let t: &mut Trigger = &mut self.triggers[index];
            t.enabled = on;
        }
    }

    /// Replaces a rule's condition and action. The edge level resets: it belonged
    /// to the old condition.
    pub fn edit_trigger(&mut self, index: usize, cond: TriggerCond, action: TriggerAction)
        requires
            old(self).wf(),
        ensures
            final(self).wf(),
            final(self).triggers@ == (if index < old(self).triggers@.len() {
                old(self).triggers@.update(
                    index as int,
                    Trigger { cond, action, level: false, ..old(self).triggers@[index as int] },
                )
            } else {
                old(self).triggers@
            }),
            *final(self) == (BusCore { triggers: final(self).triggers, ..*old(self) }),
    {
        if index < self.triggers.len() {
            let t: &mut Trigger = &mut self.triggers[index];
            t.cond = cond;
            t.action = action;
            t.level = false;
        }
    }

    /// Re-arms every latched appearance watch. Real levels are untouched.
    pub fn rearm_latched_triggers(&mut self, status: &mut String)
        requires
            old(self).wf(),
        ensures
            final(self).wf(),
            final(self).triggers@ == bus_ingest::rearmed_all(old(self).triggers@),
            *final(self) == (BusCore { triggers: final(self).triggers, ..*old(self) }),
            final(status)@ == "re-armed "@ + text::decimal(
                latched_count(old(self).triggers@, old(self).triggers@.len() as int),
            ) + " latched trigger(s)"@,
    {
        let mut n: u64 = 0;
        let total: usize = self.triggers.len();
        for i in 0..total
            invariant
                total == old(self).triggers@.len(),
                self.triggers@.len() == total,
                n <= i,
                n == latched_count(old(self).triggers@, i as int),
                *self == (BusCore { triggers: self.triggers, ..*old(self) }),
                forall|k: int|
                    0 <= k < i ==> self.triggers@[k] == bus_ingest::rearmed_all(
                        old(self).triggers@,
                    )[k],
                forall|k: int| i <= k < total ==> self.triggers@[k] == old(self).triggers@[k],
        {
            if self.triggers[i].cond.latches_once() && self.triggers[i].level {
                let t: &mut Trigger = &mut self.triggers[i];
                t.rearm();
                n = n + 1;
            }
        }
        assert(self.triggers@ =~= bus_ingest::rearmed_all(old(self).triggers@));
        *status = counted_line("re-armed ", n, " latched trigger(s)");
    }

    /// Resets the tallies behind the Messages and Statistics rows, and nothing
    /// else of the run.
    pub fn clear_aggregates(&mut self, status: &mut String)
        requires
            old(self).wf(),
        ensures
            final(self).wf(),
            final(self).aggs.items@.len() == 0,
            *final(self) == (BusCore { aggs: final(self).aggs, ..*old(self) }),
            final(status)@ == "cleared "@ + text::decimal(old(self).aggs.items@.len() as int)
                + " message counter(s)"@,
    {
        let n: u64 = self.aggs.len() as u64;
        self.aggs.clear();
        *status = counted_line("cleared ", n, " message counter(s)");
    }

    /// A hardware channel is attached to a bus, as far as it could be opened.
    pub open spec fn is_hardware_set(
        self,
        after: BusCore,
        bus: u8,
        driver: HwDriver,
        adapter: i32,
        kbps: u32,
        fd_data_kbps: Option<u32>,
        opened: HwOpen,
        status: Seq<char>,
    ) -> bool {
        &&& status == attach_status(bus, driver, adapter, kbps, fd_data_kbps, opened)
        &&& after.hw.buses@ == (match opened {
            HwOpen::Full { fd } => self.hw.buses@.insert(
                bus_types::bus_key(bus),
                HwBus { adapter, driver, kbps, can_tx: true, fd },
            ),
            HwOpen::ReceiveOnly { fd } => self.hw.buses@.insert(
                bus_types::bus_key(bus),
                HwBus { adapter, driver, kbps, can_tx: false, fd },
            ),
            HwOpen::Failed { .. } => self.hw.buses@,
        })
        &&& after.hw == (bus_types::Hardware { buses: after.hw.buses, ..self.hw })
        &&& after == (BusCore { hw: after.hw, ..self })
    }

    /// Attaches a hardware adapter to a bus. `opened` tells how opening its channel
    /// went.
    pub fn set_hardware_channel(
        &mut self,
        bus: u8,
        driver: HwDriver,
        adapter: i32,
        kbps: u32,
        fd_data_kbps: Option<u32>,
        opened: HwOpen,
        status: &mut String,
    )
        requires
            old(self).wf(),
        ensures
            final(self).wf(),
            old(self).is_hardware_set(
                *final(self),
                bus,
                driver,
                adapter,
                kbps,
                fd_data_kbps,
                opened,
                final(status)@,
            ),
    {
        *status = attach_line(bus, driver, adapter, kbps, fd_data_kbps, &opened);
        let k: u64 = bus_types::key_of_bus(bus);
        match opened {
            HwOpen::Full { fd } => {
                self.hw.buses.put(k, HwBus { adapter, driver, kbps, can_tx: true, fd });
            },
            HwOpen::ReceiveOnly { fd } => {
                self.hw.buses.put(k, HwBus { adapter, driver, kbps, can_tx: false, fd });
            },
            HwOpen::Failed { .. } => {},
        }
    }

    /// Detaches a bus's hardware.
    pub fn detach_hardware(&mut self, bus: u8, status: &mut String)
        requires
            old(self).wf(),
        ensures
            final(self).wf(),
            final(self).hw.buses@ == old(self).hw.buses@.remove(bus_types::bus_key(bus)),
            final(self).hw == (bus_types::Hardware {
                buses: final(self).hw.buses,
                ..old(self).hw
            }),
            *final(self) == (BusCore { hw: final(self).hw, ..*old(self) }),
            final(status)@ == "hardware detached from bus "@ + text::decimal(bus + 1),
    {
        self.hw.buses.remove(bus_types::key_of_bus(bus));
        *status = detached_line(bus);
    }

    /// The FlexRay watch is attached or detached; an attachment that failed leaves
    /// nothing attached.
    pub open spec fn is_watch_set(
        self,
        after: BusCore,
        channel_index: Option<i32>,
        fibex_path: String,
        attached: Result<(), String>,
        status: Seq<char>,
    ) -> bool {
        &&& match channel_index {
            Some(idx) => match attached {
                Ok(_) => {
                    &&& after.hw.fr_watch == Some(FrWatch { channel_index: idx, fibex_path })
                    &&& status == "FlexRay 监听已挂接: Vector ch"@ + text::decimal(idx as int)
                        + "（只收）"@
                },
                Err(e) => {
                    &&& after.hw.fr_watch is None
                    &&& status == "FlexRay 监听挂接失败: "@ + e@
                },
            },
            None => {
                &&& after.hw.fr_watch is None
                &&& status == "FlexRay 监听已断开"@
            },
        }
        &&& after.hw == (bus_types::Hardware { fr_watch: after.hw.fr_watch, ..self.hw })
        &&& after == (BusCore { hw: after.hw, ..self })
    }

    /// Attaches, moves or detaches the FlexRay watch. `attached` tells how opening
    /// the channel with the description went.
    pub fn set_fr_watch(
        &mut self,
        channel_index: Option<i32>,
        fibex_path: String,
        attached: Result<(), String>,
        status: &mut String,
    )
        requires
            old(self).wf(),
        ensures
            final(self).wf(),
            old(self).is_watch_set(
                *final(self),
                channel_index,
                fibex_path,
                attached,
                final(status)@,
            ),
    {
        match channel_index {
            Some(idx) => match attached {
                Ok(_) => {
                    self.hw.fr_watch = Some(FrWatch { channel_index: idx, fibex_path });
                    *status = watch_line(idx);
                },
                Err(e) => {
                    self.hw.fr_watch = None;
                    let mut s: String = "FlexRay 监听挂接失败: ".to_owned();
                    s.append(e.as_str());
                    *status = s;
                },
            },
            None => {
                self.hw.fr_watch = None;
                *status = "FlexRay 监听已断开".to_owned();
            },
        }
    }
}

proof fn lemma_starts_prefix(a: Seq<ScriptNode>, b: Seq<ScriptNode>, n: int)
    requires
        n <= a.len(),
        n <= b.len(),
        forall|k: int| 0 <= k < n ==> a[k] == b[k],
    ensures
        bus_run::node_starts(a, n) == bus_run::node_starts(b, n),
    decreases n,
{
    if n > 0 {
        lemma_starts_prefix(a, b, n - 1);
    }
}

} // verus!
