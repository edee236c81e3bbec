//! The bus core: everything that must keep running at the bus's own rate. What
//! reaches outside (files, drivers, the script runtime, floating point) is done
//! elsewhere and handed in as plain values.

use std::collections::VecDeque;
use std::sync::Arc;
use vstd::prelude::*;
use vstd::string::*;
use crate::aggregate;
use crate::aggregate::{FrSlotAgg, MessageAgg};
use crate::app::Mode;
use crate::block;
use crate::block::ReplayBlock;
use crate::bus_types::{Hardware, Recorder, ScriptNode, SysVar, WriteLine};
use crate::can::frame::{CanFrame, FrameFlags};
use crate::channel;
use crate::channel::{Channel, NodeRole};
use crate::dbc::SymbolTable;
use crate::generator;
use crate::generator::TxMsg;
use crate::monitor::Monitor;
use crate::observe;
use crate::observers;
use crate::observers::Observers;
use crate::sim;
use crate::sim::ValueSrc;
use crate::table::Table;
use crate::text;
use crate::trace::{FrRing, FrRow, TraceRing, TRACE_LIMIT};
use crate::triggers::Trigger;

verus! {

/// Slots one generator entry may backfill in one step after the clock jumped.
pub const MAX_TX_CATCHUP: u32 = 1024;

/// Oldest bus-event markers fall off once the list outgrows this.
pub const MARKER_CAP: usize = 512;

/// How many frames before a triggered recording are written into the file.
pub const PRE_BUFFER_FRAMES: usize = 256;

/// Frames a triggered recording keeps writing after it is told to stop.
pub const POST_ROLL_FRAMES: u32 = 32;

/// Oldest lines of the Write window fall off once the list outgrows this.
pub const WRITE_LOG_CAP: usize = 1000;

/// The cycle of a new generator entry whose database declares none.
pub const DEFAULT_TX_CYCLE_US: u64 = 100_000;

/// Frames that one backfill may collect.
pub const MAX_SCAN_FRAMES: usize = 300_000;

/// What the load view is told of one frame: the frame and the bitrates of its bus.
#[derive(Clone, Copy)]
pub struct LoadNote {
    pub frame: CanFrame,
    pub arb_kbps: u32,
    pub data_kbps: u32,
}

/// What the load view of one bus was told since it last sampled.
pub struct BusLoad {
    pub notes: Vec<LoadNote>,
}

/// The simulation half of the application.
pub struct BusCore {
    /// Virtual generates against the simulated clock, Replay follows a log.
    pub mode: Mode,
    /// The bus kind selected for the next start.
    pub run_mode: Mode,
    /// Every (bus, id) the loaded log carries: while replaying, generator entries
    /// with one of these stand down.
    pub replay_ids: Vec<(u8, u32)>,
    pub channels: Vec<Channel>,
    /// Counter for naming new buses.
    pub bus_counter: usize,
    /// The interactive generator's entries.
    pub tx_list: Vec<TxMsg>,
    /// Simulated clock: accumulates only while measuring and unpaused.
    pub sim_t_us: u64,
    /// The wall clock at the previous accepted tick.
    pub sim_prev_us: u64,
    pub trace: TraceRing,
    /// The trace as of the last publish.
    pub published_trace: Arc<Vec<CanFrame>>,
    pub fr_trace: FrRing,
    pub published_fr: Arc<Vec<Arc<FrRow>>>,
    /// FlexRay tallies, by slot.
    pub fr_aggs: Table<FrSlotAgg>,
    /// The trace views are frozen.
    pub trace_paused: bool,
    /// When the freeze started.
    pub paused_at_us: Option<u64>,
    /// Frames received this run.
    pub frame_counter: u64,
    /// Tallies, by bus, id and class.
    pub aggs: Table<MessageAgg>,
    pub bus_loads: Vec<BusLoad>,
    /// Send-now requests, built into frames at the next step.
    pub injected: Vec<(u8, u32)>,
    pub loads_dirty: bool,
    /// Subscribed signals and derived streams.
    pub obs: Observers,
    /// Bus-event markers, oldest first.
    pub markers: Vec<u64>,
    /// The last frames, written into the file when a trigger starts a recording.
    pub pre_buffer: VecDeque<CanFrame>,
    /// The frames that a stopping recording still takes.
    pub post_roll: Option<u32>,
    /// Log time whose frames are already decoded into the signal caches.
    pub sample_cover: Option<(u64, u64)>,
    /// The sampling stride currently applied.
    pub applied_stride_us: u64,
    pub measuring: bool,
    /// Frames of this step.
    pub buf: Vec<CanFrame>,
    pub recorder: Recorder,
    pub triggers: Vec<Trigger>,
    pub monitor: Monitor,
    /// Commands processed so far.
    pub laps: u64,
    pub nodes: Vec<ScriptNode>,
    /// Counter for node ids; never resets.
    pub node_counter: u64,
    pub nodes_dirty: bool,
    pub replay_blocks: Vec<ReplayBlock>,
    /// Counter for block ids; never resets.
    pub block_counter: u64,
    /// An offline scan already took in the whole log this run.
    pub scan_done: bool,
    pub sysvars: Vec<SysVar>,
    /// Lines of the Write window, oldest first.
    pub write_log: VecDeque<WriteLine>,
    pub write_dirty: bool,
    pub hw: Hardware,
    /// How many frames the trace keeps.
    pub trace_limit: usize,
    pub pre_frames: usize,
    pub post_frames: u32,
    pub marker_cap: usize,
}

/// The first entry for a message on a bus, or -1.
pub open spec fn entry_index(list: Seq<TxMsg>, ch: u8, id: u32, from: int) -> int
    decreases list.len() - from,
{
    if from < 0 || from >= list.len() {
        -1
    } else if list[from].channel == ch && list[from].id == id {
        from
    } else {
        entry_index(list, ch, id, from + 1)
    }
}

pub fn find_entry(list: &Vec<TxMsg>, ch: u8, id: u32) -> (r: Option<usize>)
    ensures
        r is Some == (entry_index(list@, ch, id, 0) >= 0),
        r matches Some(i) ==> i == entry_index(list@, ch, id, 0) && i < list@.len()
            && list@[i as int].channel == ch && list@[i as int].id == id,
{
    for i in 0..list.len()
        invariant
            entry_index(list@, ch, id, 0) == entry_index(list@, ch, id, i as int),
    {
        if list[i].channel == ch && list[i].id == id {
            return Some(i);
        }
    }
    None
}

/// Every entry's payload fits a frame.
pub open spec fn entries_fit(list: Seq<TxMsg>) -> bool {
    forall|i: int|
        0 <= i < list.len() ==> (#[trigger] list[i]).len <= 64 && list[i].last_len <= 64
}

/// The role gate lets the entry send: it belongs to no node, or its node is
/// simulated.
pub open spec fn gate_open(channels: Seq<Channel>, tx: TxMsg) -> bool {
    tx.node@.len() == 0 || (tx.channel < channels.len() && channels[tx.channel as int].simulates(
        tx.node@,
    ))
}

pub fn is_gate_open(channels: &Vec<Channel>, tx: &TxMsg) -> (r: bool)
    ensures
        r == gate_open(channels@, *tx),
{
    if text::same_text(tx.node.as_str(), "") {
        proof {
            reveal_strlit("");
        }
        return true;
    }
    proof {
        reveal_strlit("");
        assert(tx.node@.len() != 0) by {
            if tx.node@.len() == 0 {
                assert(tx.node@ =~= ""@);
            }
        }
    }
    if (tx.channel as usize) < channels.len() {
        match channels[tx.channel as usize].role_of(tx.node.as_str()) {
            NodeRole::Simulated => true,
            NodeRole::Absent => false,
        }
    } else {
        false
    }
}

/// A list of zero bytes' texts.
pub open spec fn zero_texts(n: int) -> Seq<Seq<char>> {
    Seq::new(n as nat, |i: int| "00"@)
}

/// A declared length as a payload length.
pub open spec fn payload_len(dlc: u64) -> u8 {
    if dlc <= 64 {
        dlc as u8
    } else {
        64
    }
}

/// A new generator entry: what the database declares of the message, or a plain
/// eight-byte message named by its id.
pub open spec fn is_new_entry(table: Option<SymbolTable>, ch: u8, id: u32, tx: TxMsg) -> bool {
    let known = table is Some && table->0.messages@.dom().contains(id);
    let m = table->0.messages@[id];
    &&& tx.channel == ch
    &&& tx.id == id
    &&& tx.extended == (id > 0x7FF)
    &&& tx.name@ == (if known {
        m.name@
    } else {
        text::number_text(id as nat, 16)
    })
    &&& tx.node@ == (if known {
        m.transmitter@
    } else {
        Seq::empty()
    })
    &&& tx.len == (if known {
        payload_len(m.dlc)
    } else {
        8
    })
    &&& tx.cycle_us == (if known && m.cycle_us is Some {
        m.cycle_us->0
    } else {
        DEFAULT_TX_CYCLE_US
    })
    &&& tx.data@ == Seq::new(64, |i: int| 0u8)
    &&& tx.flags == (if tx.len > 8 {
        FrameFlags::fd()
    } else {
        FrameFlags::none()
    })
    &&& tx.data_text@ == text::joined(zero_texts(tx.len as int), " "@)
    &&& !tx.active
    &&& tx.next_t_us == 0
    &&& tx.srcs@.len() == 0
    &&& tx.last_sent@ == Seq::new(64, |i: int| 0u8)
    &&& tx.last_len == 0
}

/// The entry list after a message is added, unless it stands there already.
pub open spec fn is_entry_added(
    channels: Seq<Channel>,
    before: Seq<TxMsg>,
    after: Seq<TxMsg>,
    ch: u8,
    id: u32,
) -> bool {
    if entry_index(before, ch, id, 0) >= 0 {
        after == before
    } else {
        &&& after.len() == before.len() + 1
        &&& after.drop_last() == before
        &&& is_new_entry(channel::table_on(channels, ch), ch, id, after.last())
    }
}

fn zero_text(n: u8) -> (r: String)
    ensures
        r@ == text::joined(zero_texts(n as int), " "@),
{
    let mut parts: Vec<String> = Vec::new();
    for i in 0..n
        invariant
            text::views(parts@) =~= zero_texts(i as int),
    {
        let ghost before = parts@;
        let one: String = "00".to_owned();
        parts.push(one);
        assert(text::views(parts@) =~= text::views(before).push("00"@));
    }
    text::join(&parts, " ")
}

/// A number in hexadecimal, without zeros before it.
fn hex_name(id: u32) -> (r: String)
    ensures
        r@ == text::number_text(id as nat, 16),
{
    let mut s: String = String::new();
    text::push_hex(&mut s, id as u64, 0);
    assert(text::hex_padded(id as nat, 0) =~= text::number_text(id as nat, 16));
    s
}

fn new_entry(table: Option<&SymbolTable>, ch: u8, id: u32) -> (tx: TxMsg)
    ensures
        is_new_entry(block::read_table(table), ch, id, tx),
{
    broadcast use vstd::std_specs::hash::group_hash_axioms;

    let mut name: String = String::new();
    let mut node: String = String::new();
    let mut len: u8 = 8;
    let mut cycle_us: u64 = DEFAULT_TX_CYCLE_US;
    let mut known: bool = false;
    match table {
        Some(t) => match t.messages.get(&id) {
            Some(m) => {
                known = true;
                name = m.name.clone();
                node = m.transmitter.clone();
                len = if m.dlc <= 64 {
                    m.dlc as u8
                } else {
                    64
                };
                // A declared 0 is event-triggered: only a database that says
                // nothing gets the invented period.
                cycle_us = match m.cycle_us {
                    Some(c) => c,
                    None => DEFAULT_TX_CYCLE_US,
                };
            },
            None => {},
        },
        None => {},
    }
    if !known {
        name = hex_name(id);
    }
    let data_text: String = zero_text(len);
    let tx: TxMsg = TxMsg {
        channel: ch,
        id,
        extended: id > 0x7FF,
        name,
        node,
        len,
        data: [0u8; 64],
        flags: if len > 8 {
            FrameFlags::fd()
        } else {
            FrameFlags::none()
        },
        data_text,
        cycle_us,
        active: false,
        next_t_us: 0,
        srcs: Vec::new(),
        last_sent: [0u8; 64],
        last_len: 0,
    };
    assert(tx.data@ =~= Seq::new(64, |i: int| 0u8));
    assert(tx.last_sent@ =~= Seq::new(64, |i: int| 0u8));
    assert(block::read_table(table) is Some == table is Some);
    tx
}

/// Adds the entry for a message unless it exists. Name, node, length and period
/// come from the bus's database when it knows the message.
pub fn add_entry(channels: &Vec<Channel>, list: &mut Vec<TxMsg>, ch: u8, id: u32)
    requires
        entries_fit(old(list)@),
    ensures
        entries_fit(final(list)@),
        is_entry_added(channels@, old(list)@, final(list)@, ch, id),
{
    if find_entry(list, ch, id).is_some() {
        return;
    }
    let ghost before = list@;
    let table: Option<&SymbolTable> = channel::channel_dbc(channels, ch);
    let tx: TxMsg = new_entry(table, ch, id);
    assert(block::read_table(table) == channel::table_on(channels@, ch));
    list.push(tx);
    assert(list@.drop_last() =~= before);
}

/// `steps` are the entry lists as the messages are added one after the other.
pub open spec fn are_additions(
    channels: Seq<Channel>,
    ids: Seq<(u8, u32)>,
    before: Seq<TxMsg>,
    steps: Seq<Seq<TxMsg>>,
) -> bool {
    &&& steps.len() == ids.len() + 1
    &&& steps[0] == before
    &&& forall|k: int|
        #![trigger ids[k]]
        0 <= k < ids.len() ==> is_entry_added(
            channels,
            steps[k],
            steps[k + 1],
            ids[k].0,
            ids[k].1,
        )
}

/// The entry list after messages are added, each unless it exists.
pub open spec fn are_added(
    channels: Seq<Channel>,
    ids: Seq<(u8, u32)>,
    before: Seq<TxMsg>,
    after: Seq<TxMsg>,
) -> bool {
    exists|steps: Seq<Seq<TxMsg>>|
        #[trigger] are_additions(channels, ids, before, steps) && after == steps.last()
}

/// Adds entries for messages, each unless it exists.
pub fn add_entries(channels: &Vec<Channel>, list: &mut Vec<TxMsg>, ids: &Vec<(u8, u32)>)
    requires
        entries_fit(old(list)@),
    ensures
        entries_fit(final(list)@),
        are_added(channels@, ids@, old(list)@, final(list)@),
{
    let ghost mut steps: Seq<Seq<TxMsg>> = seq![list@];
    let total: usize = ids.len();
    for i in 0..total
        invariant
            total == ids@.len(),
            entries_fit(list@),
            steps.len() == i + 1,
            steps[0] == old(list)@,
            steps[i as int] == list@,
            forall|k: int|
                #![trigger ids@[k]]
                0 <= k < i ==> is_entry_added(
                    channels@,
                    steps[k],
                    steps[k + 1],
                    ids@[k].0,
                    ids@[k].1,
                ),
    {
        let ghost before = steps;
        add_entry(channels, list, ids[i].0, ids[i].1);
        proof {
            steps = steps.push(list@);
            assert forall|k: int|
                #![trigger ids@[k]]
                0 <= k < i + 1 implies is_entry_added(
                channels@,
                steps[k],
                steps[k + 1],
                ids@[k].0,
                ids@[k].1,
            ) by {
                if k < i {
                    assert(steps[k] == before[k] && steps[k + 1] == before[k + 1]);
                }
            }
        }
    }
    assert(are_additions(channels@, ids@, old(list)@, steps));
}

/// The ids with their bus.
pub open spec fn on_bus(ch: u8, ids: Seq<u32>) -> Seq<(u8, u32)> {
    Seq::new(ids.len(), |i: int| (ch, ids[i]))
}

pub fn pair_with_bus(ch: u8, ids: &Vec<u32>) -> (r: Vec<(u8, u32)>)
    ensures
        r@ == on_bus(ch, ids@),
{
    let mut r: Vec<(u8, u32)> = Vec::new();
    for i in 0..ids.len()
        invariant
            r@ == on_bus(ch, ids@).subrange(0, i as int),
    {
        r.push((ch, ids[i]));
        assert(r@ =~= on_bus(ch, ids@).subrange(0, i + 1));
    }
    assert(r@ =~= on_bus(ch, ids@));
    r
}

/// The messages of every bus's database, in order of bus and list.
pub open spec fn declared_messages(channels: Seq<Channel>, n: int) -> Seq<(u8, u32)>
    decreases n,
{
    if n <= 0 {
        Seq::empty()
    } else {
        declared_messages(channels, n - 1) + match channels[n - 1].dbc {
            Some(t) => on_bus((n - 1) as u8, t.order@),
            None => Seq::empty(),
        }
    }
}

/// The messages that every bus's database declares.
pub fn messages_of_buses(channels: &Vec<Channel>) -> (r: Vec<(u8, u32)>)
    ensures
        r@ == declared_messages(channels@, channels@.len() as int),
{
    let mut r: Vec<(u8, u32)> = Vec::new();
    let total: usize = channels.len();
    for i in 0..total
        invariant
            total == channels@.len(),
            r@ == declared_messages(channels@, i as int),
    {
        match &channels[i].dbc {
            Some(t) => {
                #[verifier::truncate]
                let ch: u8 = i as u8;
                let mut more: Vec<(u8, u32)> = pair_with_bus(ch, &t.order);
                r.append(&mut more);
            },
            None => {
                assert(r@ =~= r@ + Seq::<(u8, u32)>::empty());
            },
        }
    }
    r
}

/// The log stands on one side of an edited entry list: only the entry of the
/// message changed.
pub open spec fn only_entry_changed(
    before: Seq<TxMsg>,
    after: Seq<TxMsg>,
    ch: u8,
    id: u32,
) -> bool {
    let k = entry_index(before, ch, id, 0);
    if k >= 0 {
        after == before.update(k, after[k])
    } else {
        after == before
    }
}

/// The sources without those of a signal.
pub open spec fn without_source(srcs: Seq<ValueSrc>, name: Seq<char>, n: int) -> Seq<ValueSrc>
    decreases n,
{
    if n <= 0 {
        Seq::empty()
    } else {
        let before = without_source(srcs, name, n - 1);
        if srcs[n - 1].name@ == name {
            before
        } else {
            before.push(srcs[n - 1])
        }
    }
}

/// Drops the source that drives a signal.
pub fn drop_source(srcs: &mut Vec<ValueSrc>, name: &str)
    ensures
        final(srcs)@ == without_source(old(srcs)@, name@, old(srcs)@.len() as int),
{
    let mut all: Vec<ValueSrc> = Vec::new();
    std::mem::swap(&mut all, srcs);
    let ghost before = all@;
    let mut kept: Vec<ValueSrc> = Vec::new();
    for s in it: all
        invariant
            it.seq() == before,
            kept@ == without_source(before, name@, it.index() as int),
    {
        if !text::same_text(s.name.as_str(), name) {
            kept.push(s);
        }
    }
    *srcs = kept;
}

/// The first source that drives a signal, or -1.
pub open spec fn source_index(srcs: Seq<ValueSrc>, name: Seq<char>, from: int) -> int
    decreases srcs.len() - from,
{
    if from < 0 || from >= srcs.len() {
        -1
    } else if srcs[from].name@ == name {
        from
    } else {
        source_index(srcs, name, from + 1)
    }
}

/// The sources with one that drives its signal in place of any before.
pub open spec fn with_source(srcs: Seq<ValueSrc>, src: ValueSrc) -> Seq<ValueSrc> {
    let k = source_index(srcs, src.name@, 0);
    if k >= 0 {
        srcs.update(k, src)
    } else {
        srcs.push(src)
    }
}

/// Adds or replaces the source that drives a signal.
pub fn put_source(srcs: &mut Vec<ValueSrc>, src: ValueSrc)
    ensures
        final(srcs)@ == with_source(old(srcs)@, src),
{
    let total: usize = srcs.len();
    for i in 0..total
        invariant
            total == srcs@.len(),
            srcs@ == old(srcs)@,
            source_index(srcs@, src.name@, 0) == source_index(srcs@, src.name@, i as int),
    {
        if text::same_text(srcs[i].name.as_str(), src.name.as_str()) {
            srcs.set(i, src);
            return;
        }
    }
    srcs.push(src);
}

impl BusCore {
    pub open spec fn wf(self) -> bool {
        &&& forall|i: int| 0 <= i < self.channels@.len() ==> (#[trigger] self.channels@[i]).wf()
        &&& entries_fit(self.tx_list@)
        &&& self.aggs.wf()
        &&& aggregate::aggs_fit(self.aggs@)
        &&& self.fr_aggs.wf()
        &&& self.obs.wf()
        &&& self.monitor.wf()
        &&& forall|i: int|
            0 <= i < self.replay_blocks@.len() ==> (#[trigger] self.replay_blocks@[i]).wf()
        &&& self.hw.buses.wf()
    }

    /// A stopped bus without channels.
    pub open spec fn is_blank(self, loads: Vec<BusLoad>) -> bool {
        &&& self.mode == Mode::Virtual
        &&& self.run_mode == Mode::Virtual
        &&& self.replay_ids@.len() == 0
        &&& self.channels@.len() == 0
        &&& self.bus_counter == 2
        &&& self.tx_list@.len() == 0
        &&& self.sim_t_us == 0
        &&& self.sim_prev_us == 0
        &&& self.trace@.len() == 0
        &&& self.trace.dropped == 0
        &&& self.published_trace@.len() == 0
        &&& self.fr_trace@.len() == 0
        &&& self.fr_trace.dropped == 0
        &&& self.published_fr@.len() == 0
        &&& self.fr_aggs.items@.len() == 0
        &&& !self.trace_paused
        &&& self.paused_at_us is None
        &&& self.frame_counter == 0
        &&& self.aggs.items@.len() == 0
        &&& self.bus_loads == loads
        &&& self.injected@.len() == 0
        &&& !self.loads_dirty
        &&& self.obs.subs@.len() == 0
        &&& self.obs.streams@.len() == 0
        &&& self.obs.color_counter == 0
        &&& self.markers@.len() == 0
        &&& self.pre_buffer@.len() == 0
        &&& self.post_roll is None
        &&& self.sample_cover is None
        &&& self.applied_stride_us == observe::SAMPLE_INTERVAL_US
        &&& !self.measuring
        &&& self.buf@.len() == 0
        &&& !self.recorder.recording
        &&& self.recorder.record_path@.len() == 0
        &&& self.recorder.last_record@.len() == 0
        &&& self.recorder.ids@.len() == 0
        &&& self.triggers@.len() == 0
        &&& self.monitor.rows@ == Map::<u64, crate::monitor::Latch>::empty()
        &&& self.monitor.seen@ == Map::<u64, u64>::empty()
        &&& self.laps == 0
        &&& self.nodes@.len() == 0
        &&& self.node_counter == 0
        &&& !self.nodes_dirty
        &&& self.replay_blocks@.len() == 0
        &&& self.block_counter == 0
        &&& !self.scan_done
        &&& self.sysvars@.len() == 0
        &&& self.write_log@.len() == 0
        &&& !self.write_dirty
        &&& self.hw.buses.items@.len() == 0
        &&& !self.hw.live
        &&& self.hw.fr_watch is None
        &&& self.trace_limit == TRACE_LIMIT
        &&& self.pre_frames == PRE_BUFFER_FRAMES
        &&& self.post_frames == POST_ROLL_FRAMES
        &&& self.marker_cap == MARKER_CAP
    }

    /// Empty bus state.
    pub fn new(bus_loads: Vec<BusLoad>) -> (core: BusCore)
        ensures
            core.wf(),
            core.is_blank(bus_loads),
    {
        proof {
            reveal_strlit("");
        }
        BusCore {
            mode: Mode::Virtual,
            run_mode: Mode::Virtual,
            replay_ids: Vec::new(),
            channels: Vec::new(),
            bus_counter: 2,
            tx_list: Vec::new(),
            sim_t_us: 0,
            sim_prev_us: 0,
            trace: TraceRing::new(),
            published_trace: Arc::new(Vec::new()),
            fr_trace: FrRing::new(),
            published_fr: Arc::new(Vec::new()),
            fr_aggs: Table::new(),
            trace_paused: false,
            paused_at_us: None,
            frame_counter: 0,
            aggs: Table::new(),
            bus_loads,
            injected: Vec::new(),
            loads_dirty: false,
            obs: Observers::new(),
            markers: Vec::new(),
            pre_buffer: VecDeque::new(),
            post_roll: None,
            sample_cover: None,
            applied_stride_us: observe::SAMPLE_INTERVAL_US,
            measuring: false,
            buf: Vec::new(),
            recorder: Recorder {
                recording: false,
                record_path: String::new(),
                last_record: String::new(),
                ids: Vec::new(),
            },
            triggers: Vec::new(),
            monitor: Monitor::new(),
            laps: 0,
            nodes: Vec::new(),
            node_counter: 0,
            nodes_dirty: false,
            replay_blocks: Vec::new(),
            block_counter: 0,
            scan_done: false,
            sysvars: Vec::new(),
            write_log: VecDeque::new(),
            write_dirty: false,
            hw: Hardware { buses: Table::new(), live: false, fr_watch: None },
            trace_limit: TRACE_LIMIT,
            pre_frames: PRE_BUFFER_FRAMES,
            post_frames: POST_ROLL_FRAMES,
            marker_cap: MARKER_CAP,
        }
    }

    /// Only the entry list changed.
    pub open spec fn entries_only(self, after: BusCore) -> bool {
        after == (BusCore { tx_list: after.tx_list, ..self })
    }

    /// The entry of a message is edited, if there is one.
    pub open spec fn is_entry_edited(
        self,
        after: BusCore,
        ch: u8,
        id: u32,
        edit: spec_fn(TxMsg) -> TxMsg,
    ) -> bool {
        let k = entry_index(self.tx_list@, ch, id, 0);
        &&& self.entries_only(after)
        &&& after.tx_list@ == (if k >= 0 {
            self.tx_list@.update(k, edit(self.tx_list@[k]))
        } else {
            self.tx_list@
        })
    }

    /// Switching an entry on anchors its schedule at the current clock: a
    /// re-enabled entry starts sending from now. Switching it off touches only
    /// the flag.
    pub fn set_entry_active(&mut self, ch: u8, id: u32, on: bool)
        requires
            old(self).wf(),
        ensures
            final(self).wf(),
            old(self).is_entry_edited(
                *final(self),
                ch,
                id,
                |t: TxMsg|
                    TxMsg {
                        active: on,
                        next_t_us: if on {
                            old(self).sim_t_us
                        } else {
                            t.next_t_us
                        },
                        ..t
                    },
            ),
    {
        let sim: u64 = self.sim_t_us;
        match find_entry(&self.tx_list, ch, id) {
            Some(i) => {
                let tx: &mut TxMsg = &mut self.tx_list[i];
                tx.active = on;
                if on {
                    tx.next_t_us = sim;
                }
            },
            None => {},
        }
    }

    /// Sets or clears the entry's CAN FD flag, and with it every other flag.
    pub fn set_entry_fd(&mut self, ch: u8, id: u32, fd: bool)
        requires
            old(self).wf(),
        ensures
            final(self).wf(),
            old(self).is_entry_edited(
                *final(self),
                ch,
                id,
                |t: TxMsg|
                    TxMsg {
                        flags: if fd {
                            FrameFlags::fd()
                        } else {
                            FrameFlags::none()
                        },
                        ..t
                    },
            ),
    {
        match find_entry(&self.tx_list, ch, id) {
            Some(i) => {
                let tx: &mut TxMsg = &mut self.tx_list[i];
                tx.flags = if fd {
                    FrameFlags::fd()
                } else {
                    FrameFlags::none()
                };
            },
            None => {},
        }
    }

    /// Sets the send period; the schedule restarts now.
    pub fn set_entry_cycle(&mut self, ch: u8, id: u32, cycle_us: u64)
        requires
            old(self).wf(),
        ensures
            final(self).wf(),
            old(self).is_entry_edited(
                *final(self),
                ch,
                id,
                |t: TxMsg| TxMsg { cycle_us, next_t_us: old(self).sim_t_us, ..t },
            ),
    {
        let now: u64 = self.sim_t_us;
        match find_entry(&self.tx_list, ch, id) {
            Some(i) => {
                let tx: &mut TxMsg = &mut self.tx_list[i];
                tx.cycle_us = cycle_us;
                tx.next_t_us = now;
            },
            None => {},
        }
    }

    /// The entry's base payload is replaced from hex text, where the text is whole
    /// hex bytes and the entry exists.
    pub open spec fn is_hex_set(self, after: BusCore, ch: u8, id: u32, typed: Seq<char>) -> bool {
        let k = entry_index(self.tx_list@, ch, id, 0);
        let bytes = generator::hex_bytes(typed);
        &&& self.entries_only(after)
        &&& if k >= 0 && bytes is Some {
            &&& only_entry_changed(self.tx_list@, after.tx_list@, ch, id)
            &&& generator::is_based(
                self.tx_list@[k],
                after.tx_list@[k],
                generator::zero_filled(bytes->0),
                bytes->0.len() as u8,
            )
        } else {
            after.tx_list@ == self.tx_list@
        }
    }

    /// Replaces the base payload from the generator's hex box. Returns false if
    /// the text is not whole hex bytes or there is no such entry.
    pub fn set_entry_hex(&mut self, ch: u8, id: u32, typed: &str) -> (r: bool)
        requires
            old(self).wf(),
        ensures
            final(self).wf(),
            old(self).is_hex_set(*final(self), ch, id, typed@),
            r == (generator::hex_bytes(typed@) is Some && entry_index(
                old(self).tx_list@,
                ch,
                id,
                0,
            ) >= 0),
    {
        let bytes: Vec<u8> = match generator::parse_hex_bytes(typed) {
            Some(b) => b,
            None => {
                return false;
            },
        };
        let i: usize = match find_entry(&self.tx_list, ch, id) {
            Some(i) => i,
            None => {
                return false;
            },
        };
        let ghost before = self.tx_list@;
        let data: [u8; 64] = generator::fill(bytes.as_slice());
        let len: u8 = bytes.len() as u8;
        let tx: &mut TxMsg = &mut self.tx_list[i];
        generator::set_tx_base(tx, data, len);
        assert(self.tx_list@ =~= before.update(i as int, self.tx_list@[i as int]));
        true
    }

    /// The entries without those of a message.
    pub open spec fn without_entry(list: Seq<TxMsg>, ch: u8, id: u32, n: int) -> Seq<TxMsg>
        decreases n,
    {
        if n <= 0 {
            Seq::empty()
        } else {
            let before = BusCore::without_entry(list, ch, id, n - 1);
            if list[n - 1].channel == ch && list[n - 1].id == id {
                before
            } else {
                before.push(list[n - 1])
            }
        }
    }

    /// Drops the entry, payload, sources and schedule with it.
    pub fn remove_entry(&mut self, ch: u8, id: u32)
        requires
            old(self).wf(),
        ensures
            final(self).wf(),
            old(self).entries_only(*final(self)),
            final(self).tx_list@ == BusCore::without_entry(
                old(self).tx_list@,
                ch,
                id,
                old(self).tx_list@.len() as int,
            ),
    {
        let mut all: Vec<TxMsg> = Vec::new();
        std::mem::swap(&mut all, &mut self.tx_list);
        let ghost before = all@;
        let mut kept: Vec<TxMsg> = Vec::new();
        for t in it: all
            invariant
                it.seq() == before,
                before == old(self).tx_list@,
                entries_fit(before),
                entries_fit(kept@),
                kept@ == BusCore::without_entry(before, ch, id, it.index() as int),
        {
            assert(t == before[it.index() as int]);
            if !(t.channel == ch && t.id == id) {
                kept.push(t);
            }
        }
        self.tx_list = kept;
    }

    /// Adds the entry unless it exists.
    pub fn add_generator_entry(&mut self, ch: u8, id: u32)
        requires
            old(self).wf(),
        ensures
            final(self).wf(),
            old(self).entries_only(*final(self)),
            is_entry_added(
                old(self).channels@,
                old(self).tx_list@,
                final(self).tx_list@,
                ch,
                id,
            ),
    {
        add_entry(&self.channels, &mut self.tx_list, ch, id);
    }

    /// The entry's sources are replaced by what `srcs` makes of them.
    pub open spec fn is_source_edited(
        self,
        after: BusCore,
        ch: u8,
        id: u32,
        edit: spec_fn(Seq<ValueSrc>) -> Seq<ValueSrc>,
    ) -> bool {
        let k = entry_index(self.tx_list@, ch, id, 0);
        &&& self.entries_only(after)
        &&& only_entry_changed(self.tx_list@, after.tx_list@, ch, id)
        &&& k >= 0 ==> {
            &&& after.tx_list@[k].srcs@ == edit(self.tx_list@[k].srcs@)
            &&& after.tx_list@[k] == (TxMsg {
                srcs: after.tx_list@[k].srcs,
                ..self.tx_list@[k]
            })
        }
    }

    /// Adds or replaces the source that drives one signal of the entry.
    pub fn set_entry_source(&mut self, ch: u8, id: u32, src: ValueSrc)
        requires
            old(self).wf(),
        ensures
            final(self).wf(),
            old(self).is_source_edited(
                *final(self),
                ch,
                id,
                |s: Seq<ValueSrc>| with_source(s, src),
            ),
    {
        match find_entry(&self.tx_list, ch, id) {
            Some(i) => {
                let ghost before = self.tx_list@;
                let tx: &mut TxMsg = &mut self.tx_list[i];
                put_source(&mut tx.srcs, src);
                assert(self.tx_list@ =~= before.update(i as int, self.tx_list@[i as int]));
            },
            None => {},
        }
    }

    /// Stops driving one signal; the base bytes take over again.
    pub fn clear_entry_source(&mut self, ch: u8, id: u32, name: &str)
        requires
            old(self).wf(),
        ensures
            final(self).wf(),
            old(self).is_source_edited(
                *final(self),
                ch,
                id,
                |s: Seq<ValueSrc>| without_source(s, name@, s.len() as int),
            ),
    {
        match find_entry(&self.tx_list, ch, id) {
            Some(i) => {
                let ghost before = self.tx_list@;
                let tx: &mut TxMsg = &mut self.tx_list[i];
                drop_source(&mut tx.srcs, name);
                assert(self.tx_list@ =~= before.update(i as int, self.tx_list@[i as int]));
            },
            None => {},
        }
    }

    /// The value can be written into the entry's base payload.
    pub open spec fn can_pin(self, ch: u8, id: u32, name: Seq<char>, raw: Option<u64>) -> bool {
        let table = channel::table_on(self.channels@, ch);
        &&& entry_index(self.tx_list@, ch, id, 0) >= 0
        &&& table is Some
        &&& table->0.signal_spec(id, name) is Some
        &&& raw is Some
    }

    /// The raw value stands in the entry's base payload, and nothing drives its
    /// signal any more.
    pub open spec fn is_pinned(
        self,
        after: BusCore,
        ch: u8,
        id: u32,
        name: Seq<char>,
        raw: Option<u64>,
    ) -> bool {
        let k = entry_index(self.tx_list@, ch, id, 0);
        let table = channel::table_on(self.channels@, ch)->0;
        &&& self.entries_only(after)
        &&& if self.can_pin(ch, id, name, raw) {
            let was = self.tx_list@[k];
            let now = after.tx_list@[k];
            let size = payload_len(table.messages@[id].dlc);
            &&& only_entry_changed(self.tx_list@, after.tx_list@, ch, id)
            &&& generator::is_laid(table, id, name, raw, was.data@, now.data@)
            &&& now.srcs@ == without_source(was.srcs@, name, was.srcs@.len() as int)
            &&& generator::is_based(
                TxMsg { srcs: now.srcs, ..was },
                now,
                now.data@,
                generator::longer(was.len as int, size as int) as u8,
            )
        } else {
            after.tx_list@ == self.tx_list@
        }
    }

    /// Writes a raw value into the base payload and pins that signal by dropping
    /// only its source. Returns false when the database cannot encode it.
    pub fn pin_entry_signal(&mut self, ch: u8, id: u32, name: &str, raw: Option<u64>) -> (r: bool)
        requires
            old(self).wf(),
        ensures
            final(self).wf(),
            old(self).is_pinned(*final(self), ch, id, name@, raw),
            r == old(self).can_pin(ch, id, name@, raw),
    {
        broadcast use vstd::std_specs::hash::group_hash_axioms;

        let i: usize = match find_entry(&self.tx_list, ch, id) {
            Some(i) => i,
            None => {
                return false;
            },
        };
        let table: &SymbolTable = match channel::channel_dbc(&self.channels, ch) {
            Some(t) => t,
            None => {
                return false;
            },
        };
        let value: u64 = match raw {
            Some(v) => v,
            None => {
                return false;
            },
        };
        let mut data: [u8; 64] = self.tx_list[i].data;
        if !table.encode_signal(id, name, value, &mut data) {
            return false;
        }
        let size: u8 = match table.messages.get(&id) {
            Some(m) => if m.dlc <= 64 {
                m.dlc as u8
            } else {
                64
            },
            None => 0,
        };
        let ghost before = self.tx_list@;
        let ghost t = *table;
        let tx: &mut TxMsg = &mut self.tx_list[i];
        drop_source(&mut tx.srcs, name);
        let len: u8 = if tx.len >= size {
            tx.len
        } else {
            size
        };
        generator::set_tx_base(tx, data, len);
        assert(self.tx_list@ =~= before.update(i as int, self.tx_list@[i as int]));
        assert(generator::is_laid(
            t,
            id,
            name@,
            raw,
            before[i as int].data@,
            self.tx_list@[i as int].data@,
        ));
        true
    }

    /// The entry is restored from a saved project.
    pub open spec fn is_configured(
        self,
        after: BusCore,
        ch: u8,
        id: u32,
        active: bool,
        cycle_us: u64,
        flags: FrameFlags,
        typed: Option<Seq<char>>,
        srcs: Seq<ValueSrc>,
    ) -> bool {
        let k = entry_index(self.tx_list@, ch, id, 0);
        &&& self.entries_only(after)
        &&& only_entry_changed(self.tx_list@, after.tx_list@, ch, id)
        &&& k >= 0 ==> {
            let was = self.tx_list@[k];
            let now = after.tx_list@[k];
            let base = TxMsg {
                active,
                cycle_us,
                next_t_us: self.sim_t_us,
                flags,
                srcs: now.srcs,
                ..was
            };
            let bytes = match typed {
                Some(t) => generator::hex_bytes(t),
                None => None,
            };
            &&& now.srcs@ == srcs
            &&& match bytes {
                Some(b) => generator::is_based(
                    base,
                    now,
                    generator::zero_filled(b),
                    b.len() as u8,
                ),
                None => now == base,
            }
        }
    }

    /// Restores one generator row wholesale: flags, period, base payload (a text
    /// that is not whole hex bytes keeps the row's own) and sources; the schedule
    /// restarts now. Given flags override the one that `fd` stands for.
    pub fn set_entry_config(
        &mut self,
        ch: u8,
        id: u32,
        active: bool,
        cycle_us: u64,
        fd: bool,
        flags: Option<FrameFlags>,
        data_text: Option<String>,
        srcs: Vec<ValueSrc>,
    )
        requires
            old(self).wf(),
        ensures
            final(self).wf(),
            old(self).is_configured(
                *final(self),
                ch,
                id,
                active,
                cycle_us,
                match flags {
                    Some(f) => f,
                    None => if fd {
                        FrameFlags::fd()
                    } else {
                        FrameFlags::none()
                    },
                },
                observers::label_view(data_text),
                srcs@,
            ),
    {
        let i: usize = match find_entry(&self.tx_list, ch, id) {
            Some(i) => i,
            None => {
                return;
            },
        };
        let bytes: Option<Vec<u8>> = match &data_text {
            Some(t) => generator::parse_hex_bytes(t.as_str()),
            None => None,
        };
        let ghost before = self.tx_list@;
        let now: u64 = self.sim_t_us;
        let tx: &mut TxMsg = &mut self.tx_list[i];
        tx.active = active;
        tx.cycle_us = cycle_us;
        tx.next_t_us = now;
        tx.flags = match flags {
            Some(f) => f,
            None => if fd {
                FrameFlags::fd()
            } else {
                FrameFlags::none()
            },
        };
        tx.srcs = srcs;
        match bytes {
            Some(b) => {
                let data: [u8; 64] = generator::fill(b.as_slice());
                generator::set_tx_base(tx, data, b.len() as u8);
            },
            None => {},
        }
        assert(self.tx_list@ =~= before.update(i as int, self.tx_list@[i as int]));
    }
}

} // verus!
