//! What a frontend sees of the bus: plain copies taken once per frame, and the
//! parts that are published only when they changed.

use std::sync::Arc;
use vstd::prelude::*;
use vstd::string::*;
use crate::aggregate::{copy_bytes, FrSlotAgg, MessageAgg};
use crate::app::Mode;
use crate::block::ReplayBlock;
use crate::bus;
use crate::bus::{add_entries, is_gate_open, messages_of_buses, BusCore};
use crate::bus_ingest;
use crate::bus_types;
use crate::bus_types::{
    copy_binding, copy_pairs, copy_text, find_node, Double, HwDriver, ScriptNode, SysVarDef,
    WriteLine,
};
use crate::can::frame::{CanFrame, FrameFlags};
use crate::channel;
use crate::channel::{copy_roles, find_role, share, share_table, Channel, NodeRole, RoleEntry};
use crate::dbc::{DecodedSignal, SymbolTable};
use crate::dbc_merge::FileText;
use crate::generator;
use crate::generator::{hex_text, TxMsg};
use crate::monitor::Latch;
use crate::observe::{SampleCache, SigKey, Subscription};
use crate::observers::{Reading, Stream};
use crate::sim;
use crate::sim::{copy_sources, copy_words, ValueSrc};
use crate::text;
use crate::trace::FrRow;
use crate::triggers::Trigger;

verus! {

/// One replay block as the frontend sees it.
pub struct ReplayBlockView {
    pub id: u64,
    pub name: String,
    pub channel: u8,
    pub path: String,
    pub node_filter: Option<String>,
    /// The database node this block belongs to.
    pub attached: Option<(u8, String)>,
    pub ids: Vec<(u32, bool)>,
    pub enabled: bool,
    /// Frames in the loaded queue; 0 unless the block loaded successfully.
    pub frames: usize,
    pub last_error: Option<String>,
}

/// One bus's hardware attachment as the frontend sees it.
#[derive(Clone, Copy, Debug)]
pub struct HwBusView {
    pub bus: u8,
    /// The driver-specific channel index.
    pub adapter: i32,
    pub driver: HwDriver,
    pub kbps: u32,
    /// Whether the attachment can transmit.
    pub can_tx: bool,
    /// FD data-phase parameters were applied; FD frames can leave.
    pub fd: bool,
}

/// The FlexRay watch as the frontend sees it: identity only.
pub struct FrWatchView {
    pub channel_index: i32,
    pub fibex_path: String,
}

/// One system variable: the definition and its live value.
pub struct SysVarView {
    pub def: SysVarDef,
    pub value: Double,
}

/// One script node as of the last publish.
pub struct NodeView {
    pub id: u64,
    pub name: String,
    pub channel: u8,
    pub source: String,
    pub enabled: bool,
    pub file_path: Option<String>,
    /// The database node the script is bound to.
    pub attached: Option<(u8, String)>,
    pub running: bool,
    /// A handler failed: the node is stopped until restart or edit.
    pub errored: bool,
    /// Log lines, oldest first.
    pub log: Vec<String>,
}

/// The frontend's view of one bus. The database is shared: loads are rare, reads
/// are per frame.
pub struct ChannelView {
    pub name: String,
    /// Every attached database path, primary first.
    pub dbc_paths: Vec<String>,
    pub bitrate_kbps: u32,
    pub fd_data_kbps: u32,
    pub node_roles: Vec<RoleEntry>,
    pub dbc: Option<Arc<SymbolTable>>,
}

impl ChannelView {
    /// The role declared for a node; every node without an entry is absent.
    pub fn role_of(&self, node: &str) -> (r: NodeRole)
        ensures
            r == channel::role_in(self.node_roles@, node@),
    {
        find_role(&self.node_roles, node)
    }
}

/// One generator entry as the frontend sees it.
pub struct TxView {
    pub channel: u8,
    pub id: u32,
    pub name: String,
    /// The database transmitter stamped on the entry; empty when unassigned.
    pub node: String,
    pub active: bool,
    /// The role gate lets the entry send.
    pub gate_open: bool,
    pub fd: bool,
    pub cycle_us: u64,
    /// The base payload as hex text.
    pub data_text: String,
    /// The payload of the last frame that went out; the base where none did.
    pub sent_data: [u8; 64],
    pub sent_text: String,
    pub srcs: Vec<ValueSrc>,
    pub muted: bool,
}

/// One subscribed signal as the frontend sees it.
pub struct SubView {
    pub key: SigKey,
    pub latest: Reading,
    pub last_raw: i64,
    pub unit: String,
    pub label: Option<String>,
    pub type_tag: String,
    /// The sampled history, for the curve windows.
    pub history: SampleCache<Reading>,
    /// The palette row assigned at subscribe time.
    pub color: usize,
}

/// What was published of the nodes, the blocks and the Write lines: rebuilt only
/// when something changed.
pub struct Published {
    pub nodes: Arc<Vec<NodeView>>,
    pub blocks: Arc<Vec<ReplayBlockView>>,
    pub write: Arc<Vec<WriteLine>>,
}

/// What the frontend may see of the bus: one frame-shaped bundle of read-only facts.
pub struct Snapshot {
    /// Frames received this run.
    pub frame_counter: u64,
    pub trace_len: usize,
    pub sub_count: usize,
    /// Replay playhead and log length, when a log with a known position is loaded.
    pub replay: Option<(u64, u64)>,
    pub channel_count: usize,
    pub laps: u64,
    pub bus_counter: usize,
    pub sim_t_us: u64,
    pub sample_cover: Option<(u64, u64)>,
    /// The monitor's latched rows.
    pub spec_rows: Vec<(u64, Latch)>,
    pub nodes: Arc<Vec<NodeView>>,
    pub blocks: Arc<Vec<ReplayBlockView>>,
    /// Derived streams: the key and its owner's name.
    pub emitted: Vec<(SigKey, String)>,
    pub sysvars: Vec<SysVarView>,
    pub write: Arc<Vec<WriteLine>>,
    pub hw: Vec<HwBusView>,
    pub fr_watch: Option<FrWatchView>,
    /// Whether the attachments are connected or parked.
    pub real_bus: bool,
    pub triggers: Vec<Trigger>,
    pub last_record: String,
    pub channels: Vec<ChannelView>,
    /// One tally per message seen this run.
    pub aggs: Vec<MessageAgg>,
    /// One tally per FlexRay slot seen this run, in the order of the slots.
    pub fr_aggs: Vec<FrSlotAgg>,
    pub subs: Vec<SubView>,
    pub markers: Vec<u64>,
    pub tx: Vec<TxView>,
    pub trace: Arc<Vec<CanFrame>>,
    pub fr_trace: Arc<Vec<Arc<FrRow>>>,
    pub fr_dropped: u64,
    pub mode: Mode,
    pub run_mode: Mode,
    pub measuring: bool,
    pub trace_paused: bool,
    pub recording: bool,
    /// Text from the commands since the last publish; news, not state.
    pub status: Option<String>,
}

/// A view shows the block.
pub open spec fn shows_block(v: ReplayBlockView, b: ReplayBlock) -> bool {
    &&& v.id == b.id
    &&& v.name == b.name
    &&& v.channel == b.channel
    &&& v.path == b.path
    &&& v.node_filter == b.node_filter
    &&& v.attached == b.attached
    &&& v.ids@ == b.ids@
    &&& v.enabled == b.enabled
    &&& v.frames == b.queue@.len()
    &&& v.last_error == b.last_error
}

fn view_block(b: &ReplayBlock) -> (v: ReplayBlockView)
    ensures
        shows_block(v, *b),
{
    ReplayBlockView {
        id: b.id,
        name: b.name.clone(),
        channel: b.channel,
        path: b.path.clone(),
        node_filter: copy_text(&b.node_filter),
        attached: copy_binding(&b.attached),
        ids: copy_pairs(&b.ids),
        enabled: b.enabled,
        frames: b.queue_len(),
        last_error: copy_text(&b.last_error),
    }
}

/// A view shows the node.
pub open spec fn shows_node(v: NodeView, n: ScriptNode) -> bool {
    &&& v.id == n.id
    &&& v.name == n.name
    &&& v.channel == n.channel
    &&& v.source == n.source
    &&& v.enabled == n.enabled
    &&& v.file_path == n.file_path
    &&& v.attached == n.attached
    &&& v.running == n.running
    &&& v.errored == n.errored
    &&& v.log@ == n.log@
}

fn view_node(n: &ScriptNode) -> (v: NodeView)
    ensures
        shows_node(v, *n),
{
    NodeView {
        id: n.id,
        name: n.name.clone(),
        channel: n.channel,
        source: n.source.clone(),
        enabled: n.enabled,
        file_path: copy_text(&n.file_path),
        attached: copy_binding(&n.attached),
        running: n.running,
        errored: n.errored,
        log: text::copy_names(&n.log),
    }
}

/// A view shows the bus.
pub open spec fn shows_channel(v: ChannelView, c: Channel) -> bool {
    &&& v.name == c.name
    &&& v.dbc_paths@ == c.dbc_paths@
    &&& v.bitrate_kbps == c.bitrate_kbps
    &&& v.fd_data_kbps == c.fd_data_kbps
    &&& v.node_roles@ == c.node_roles@
    &&& v.dbc == c.dbc
}

fn view_channel(c: &Channel) -> (v: ChannelView)
    ensures
        shows_channel(v, *c),
{
    ChannelView {
        name: c.name.clone(),
        dbc_paths: text::copy_names(&c.dbc_paths),
        bitrate_kbps: c.bitrate_kbps,
        fd_data_kbps: c.fd_data_kbps,
        node_roles: copy_roles(&c.node_roles),
        dbc: share_table(&c.dbc),
    }
}

/// A view shows the entry: what it sent last, or its base where it never sent.
pub open spec fn shows_entry(v: TxView, t: TxMsg, core: BusCore) -> bool {
    &&& v.channel == t.channel
    &&& v.id == t.id
    &&& v.name == t.name
    &&& v.node == t.node
    &&& v.active == t.active
    &&& v.gate_open == bus::gate_open(core.channels@, t)
    &&& v.fd == t.flags.has(FrameFlags::fd())
    &&& v.cycle_us == t.cycle_us
    &&& v.data_text == t.data_text
    &&& v.sent_data == (if t.last_len > 0 {
        t.last_sent
    } else {
        t.data
    })
    &&& v.sent_text@ == (if t.last_len > 0 {
        generator::payload_text(t.last_sent@, t.last_len)
    } else {
        generator::payload_text(t.data@, t.len)
    })
    &&& sim::same_sources(v.srcs@, t.srcs@)
    &&& v.muted == core.is_muted(t)
}

/// A view shows the subscription.
pub open spec fn shows_sub(v: SubView, s: Subscription<Reading>) -> bool {
    &&& v.key == s.key
    &&& v.latest == s.latest
    &&& v.last_raw == s.last_raw
    &&& v.unit == s.unit
    &&& v.label == s.label
    &&& v.type_tag == s.type_tag
    &&& v.history@ == s.history@
    &&& v.color == s.color
}

fn view_sub(s: &Subscription<Reading>) -> (v: SubView)
    ensures
        shows_sub(v, *s),
{
    SubView {
        key: s.key.copied(),
        latest: s.latest,
        last_raw: s.last_raw,
        unit: s.unit.clone(),
        label: copy_text(&s.label),
        type_tag: s.type_tag.clone(),
        history: s.history.copied(),
        color: s.color,
    }
}

fn view_streams(streams: &Vec<Stream>) -> (r: Vec<(SigKey, String)>)
    ensures
        r@.len() == streams@.len(),
        forall|i: int|
            0 <= i < r@.len() ==> #[trigger] r@[i] == (streams@[i].key, streams@[i].owner),
{
    let mut r: Vec<(SigKey, String)> = Vec::new();
    for i in 0..streams.len()
        invariant
            r@.len() == i,
            forall|k: int|
                0 <= k < i ==> #[trigger] r@[k] == (streams@[k].key, streams@[k].owner),
    {
        r.push((streams[i].key.copied(), streams[i].owner.clone()));
    }
    r
}

fn copy_latches(rows: &Vec<(u64, Latch)>) -> (r: Vec<(u64, Latch)>)
    ensures
        r@ == rows@,
{
    let mut r: Vec<(u64, Latch)> = Vec::new();
    for i in 0..rows.len()
        invariant
            r@ == rows@.subrange(0, i as int),
    {
        r.push(rows[i]);
        assert(r@ =~= rows@.subrange(0, i + 1));
    }
    assert(r@ =~= rows@);
    r
}

/// The tallies of a table's items, in the order of their keys.
pub open spec fn tallies(items: Seq<(u64, MessageAgg)>) -> Seq<MessageAgg> {
    Seq::new(items.len(), |i: int| items[i].1)
}

fn copy_tallies(items: &Vec<(u64, MessageAgg)>) -> (r: Vec<MessageAgg>)
    ensures
        r@ == tallies(items@),
{
    let mut r: Vec<MessageAgg> = Vec::new();
    for i in 0..items.len()
        invariant
            r@ == tallies(items@).subrange(0, i as int),
    {
        r.push(items[i].1);
        assert(r@ =~= tallies(items@).subrange(0, i + 1));
    }
    assert(r@ =~= tallies(items@));
    r
}

/// A copy of a slot's tally.
pub open spec fn same_slot(a: FrSlotAgg, b: FrSlotAgg) -> bool {
    &&& a.payload@ == b.payload@
    &&& a == (FrSlotAgg { payload: a.payload, ..b })
}

fn copy_slots(items: &Vec<(u64, FrSlotAgg)>) -> (r: Vec<FrSlotAgg>)
    ensures
        r@.len() == items@.len(),
        forall|i: int| 0 <= i < r@.len() ==> same_slot(#[trigger] r@[i], items@[i].1),
{
    let mut r: Vec<FrSlotAgg> = Vec::new();
    for i in 0..items.len()
        invariant
            r@.len() == i,
            forall|k: int| 0 <= k < i ==> same_slot(#[trigger] r@[k], items@[k].1),
    {
        let a: &FrSlotAgg = &items[i].1;
        r.push(
            FrSlotAgg {
                slot: a.slot,
                count: a.count,
                last_t_us: a.last_t_us,
                ab: a.ab,
                last_cycle: a.last_cycle,
                payload: copy_bytes(&a.payload),
            },
        );
    }
    r
}

fn copy_triggers(rules: &Vec<Trigger>) -> (r: Vec<Trigger>)
    ensures
        r@ == rules@,
{
    let mut r: Vec<Trigger> = Vec::new();
    for i in 0..rules.len()
        invariant
            r@ == rules@.subrange(0, i as int),
    {
        r.push(rules[i].copied());
        assert(r@ =~= rules@.subrange(0, i + 1));
    }
    assert(r@ =~= rules@);
    r
}

/// The views of the attachments, in the order of the buses.
pub open spec fn are_attachments(views: Seq<HwBusView>, items: Seq<(u64, bus_types::HwBus)>) -> bool {
    &&& views.len() == items.len()
    &&& forall|i: int|
        0 <= i < views.len() ==> #[trigger] views[i] == (HwBusView {
            bus: (items[i].0 / crate::table::BUS_UNIT) as u8,
            adapter: items[i].1.adapter,
            driver: items[i].1.driver,
            kbps: items[i].1.kbps,
            can_tx: items[i].1.can_tx,
            fd: items[i].1.fd,
        })
}

/// The values that scripts on one bus may read: each signal of the last frame of
/// each message, as far as the bus's database decodes it.
pub open spec fn script_signals(
    channels: Seq<Channel>,
    items: Seq<(u64, MessageAgg)>,
    ch: u8,
    n: int,
) -> Seq<(u32, DecodedSignal)>
    decreases n,
{
    if n <= 0 {
        Seq::empty()
    } else {
        let before = script_signals(channels, items, ch, n - 1);
        let a = items[n - 1].1;
        if a.channel == ch {
            before + labelled(a.id, bus_ingest::decoded_on(channels, a.frame_spec()))
        } else {
            before
        }
    }
}

/// Each signal with its message's id.
pub open spec fn labelled(id: u32, signals: Seq<DecodedSignal>) -> Seq<(u32, DecodedSignal)> {
    Seq::new(signals.len(), |i: int| (id, signals[i]))
}

/// A script may put frames on the bus: it is bound to no node, or its node is
/// simulated.
pub open spec fn script_allowed(channels: Seq<Channel>, attached: Option<(u8, String)>) -> bool {
    match attached {
        None => true,
        Some(a) => a.0 < channels.len() && channels[a.0 as int].simulates(a.1@),
    }
}

/// Whether a script's frames may go out.
pub fn may_send(channels: &Vec<Channel>, attached: &Option<(u8, String)>) -> (r: bool)
    ensures
        r == script_allowed(channels@, *attached),
{
    match attached {
        None => true,
        Some(a) => if (a.0 as usize) < channels.len() {
            match channels[a.0 as usize].role_of(a.1.as_str()) {
                NodeRole::Simulated => true,
                _ => false,
            }
        } else {
            false
        },
    }
}

/// Every bus and id that the first `n` frames of a log carry, each once.
pub open spec fn carried(frames: Seq<CanFrame>, n: int) -> Seq<(u8, u32)>
    decreases n,
{
    if n <= 0 {
        Seq::empty()
    } else {
        let before = carried(frames, n - 1);
        let pair = (frames[n - 1].channel, frames[n - 1].id);
        if before.contains(pair) {
            before
        } else {
            before.push(pair)
        }
    }
}

fn pair_in(pairs: &Vec<(u8, u32)>, p: (u8, u32)) -> (r: bool)
    ensures
        r == pairs@.contains(p),
{
    for i in 0..pairs.len()
        invariant
            forall|k: int| 0 <= k < i ==> pairs@[k] != p,
    {
        let q: (u8, u32) = pairs[i];
        if q.0 == p.0 && q.1 == p.1 {
            assert(pairs@[i as int] == p);
            return true;
        }
    }
    false
}

/// Every bus and id that a log carries: the entries that stand down while it is
/// replayed.
pub fn scan_log_ids(frames: &Vec<CanFrame>) -> (r: Vec<(u8, u32)>)
    ensures
        r@ == carried(frames@, frames@.len() as int),
{
    let mut ids: Vec<(u8, u32)> = Vec::new();
    for i in 0..frames.len()
        invariant
            ids@ == carried(frames@, i as int),
    {
        let pair: (u8, u32) = (frames[i].channel, frames[i].id);
        if !pair_in(&ids, pair) {
            ids.push(pair);
        }
    }
    ids
}

/// The log's ids are exactly those of its frames.
pub proof fn law_scan_finds_every_id(frames: Seq<CanFrame>, n: int, p: (u8, u32))
    requires
        0 <= n <= frames.len(),
    ensures
        carried(frames, n).contains(p) <==> exists|i: int|
            0 <= i < n && (#[trigger] frames[i]).channel == p.0 && frames[i].id == p.1,
    decreases n,
{
    if n > 0 {
        law_scan_finds_every_id(frames, n - 1, p);
        let before = carried(frames, n - 1);
        let pair = (frames[n - 1].channel, frames[n - 1].id);
        if carried(frames, n).contains(p) && !before.contains(p) {
            assert(p == pair);
        }
        if before.contains(p) {
            let k = choose|k: int| 0 <= k < before.len() && before[k] == p;
            assert(carried(frames, n)[k] == p);
        }
        if !before.contains(pair) {
            assert(carried(frames, n).last() == pair);
        }
    }
}

/// A file on the bus changed outside: it could be read, and its content's sum is
/// not the one that was loaded. Nothing is told where the sums are not in step with
/// the paths.
pub open spec fn is_changed(c: Channel, files: Seq<Result<FileText, String>>) -> bool {
    &&& c.dbc_paths@.len() == c.dbc_sums@.len()
    &&& exists|i: int| #[trigger] is_file_changed(c, files, i)
}

pub open spec fn is_file_changed(c: Channel, files: Seq<Result<FileText, String>>, i: int) -> bool {
    &&& 0 <= i < c.dbc_paths@.len()
    &&& text::trimmed(c.dbc_paths@[i]@).len() > 0
    &&& files[i] is Ok
    &&& files[i]->Ok_0.sum != c.dbc_sums@[i]
}

/// Whether the bus's database has to be loaded again. `files` is what was read of
/// each of its paths.
pub fn needs_reload(c: &Channel, files: &Vec<Result<FileText, String>>) -> (r: bool)
    requires
        files@.len() == c.dbc_paths@.len(),
    ensures
        r == is_changed(*c, files@),
{
    if c.dbc_paths.len() != c.dbc_sums.len() {
        return false;
    }
    for i in 0..c.dbc_paths.len()
        invariant
            files@.len() == c.dbc_paths@.len(),
            c.dbc_paths@.len() == c.dbc_sums@.len(),
            forall|k: int| 0 <= k < i ==> !#[trigger] is_file_changed(*c, files@, k),
    {
        let blank: bool = text::trim_chars(c.dbc_paths[i].as_str()).len() == 0;
        match &files[i] {
            Ok(f) => {
                if !blank && f.sum != c.dbc_sums[i] {
                    assert(is_file_changed(*c, files@, i as int));
                    return true;
                }
            },
            Err(_) => {},
        }
        assert(!is_file_changed(*c, files@, i as int));
    }
    false
}

impl Published {
    /// Nothing published yet.
    pub fn new() -> (p: Published)
        ensures
            p.nodes@.len() == 0,
            p.blocks@.len() == 0,
            p.write@.len() == 0,
    {
        Published {
            nodes: Arc::new(Vec::new()),
            blocks: Arc::new(Vec::new()),
            write: Arc::new(Vec::new()),
        }
    }
}

impl BusCore {
    /// The node and block views follow the core, where something changed.
    pub open spec fn are_nodes_published(
        self,
        after: BusCore,
        before: Published,
        p: Published,
    ) -> bool {
        if self.nodes_dirty {
            &&& p.nodes@.len() == self.nodes@.len()
            &&& forall|i: int|
                0 <= i < self.nodes@.len() ==> shows_node(#[trigger] p.nodes@[i], self.nodes@[i])
            &&& p.blocks@.len() == self.replay_blocks@.len()
            &&& forall|i: int|
                0 <= i < self.replay_blocks@.len() ==> shows_block(
                    #[trigger] p.blocks@[i],
                    self.replay_blocks@[i],
                )
            &&& p.write == before.write
            &&& after == (BusCore { nodes_dirty: false, ..self })
        } else {
            p == before && after == self
        }
    }

    /// Republishes the node and block views after something changed.
    pub fn publish_nodes(&mut self, p: &mut Published)
        requires
            old(self).wf(),
        ensures
            final(self).wf(),
            old(self).are_nodes_published(*final(self), *old(p), *final(p)),
    {
        if !self.nodes_dirty {
            return;
        }
        let mut nodes: Vec<NodeView> = Vec::new();
        for i in 0..self.nodes.len()
            invariant
                nodes@.len() == i,
                forall|k: int| 0 <= k < i ==> shows_node(#[trigger] nodes@[k], self.nodes@[k]),
        {
            nodes.push(view_node(&self.nodes[i]));
        }
        let mut blocks: Vec<ReplayBlockView> = Vec::new();
        for i in 0..self.replay_blocks.len()
            invariant
                blocks@.len() == i,
                forall|k: int|
                    0 <= k < i ==> shows_block(#[trigger] blocks@[k], self.replay_blocks@[k]),
        {
            blocks.push(view_block(&self.replay_blocks[i]));
        }
        p.nodes = Arc::new(nodes);
        p.blocks = Arc::new(blocks);
        self.nodes_dirty = false;
    }

    /// Republishes the Write lines after a change.
    pub fn publish_write(&mut self, p: &mut Published)
        requires
            old(self).wf(),
        ensures
            final(self).wf(),
            old(self).write_dirty ==> final(p).write@ == old(self).write_log@,
            !old(self).write_dirty ==> final(p).write == old(p).write,
            final(p).nodes == old(p).nodes,
            final(p).blocks == old(p).blocks,
            *final(self) == (BusCore { write_dirty: false, ..*old(self) }),
    {
        if !self.write_dirty {
            return;
        }
        let mut lines: Vec<WriteLine> = Vec::new();
        for i in 0..self.write_log.len()
            invariant
                lines@ == self.write_log@.subrange(0, i as int),
        {
            lines.push(self.write_log[i].copied());
            assert(lines@ =~= self.write_log@.subrange(0, i + 1));
        }
        assert(lines@ =~= self.write_log@);
        p.write = Arc::new(lines);
        self.write_dirty = false;
    }

    fn view_entry(&self, t: &TxMsg) -> (v: TxView)
        ensures
            shows_entry(v, *t, *self),
    {
        let sent: bool = t.last_len > 0;
        let sent_data: [u8; 64] = if sent {
            t.last_sent
        } else {
            t.data
        };
        let len: u8 = if sent {
            t.last_len
        } else {
            t.len
        };
        TxView {
            channel: t.channel,
            id: t.id,
            name: t.name.clone(),
            node: t.node.clone(),
            active: t.active,
            gate_open: is_gate_open(&self.channels, t),
            fd: t.flags.contains(FrameFlags::fd()),
            cycle_us: t.cycle_us,
            data_text: t.data_text.clone(),
            sent_data,
            sent_text: hex_text(&sent_data, len),
            srcs: copy_sources(&t.srcs),
            muted: self.muted(t),
        }
    }

    /// The snapshot shows the core as it is, and what was last published.
    pub open spec fn is_shown(
        self,
        s: Snapshot,
        p: Published,
        replay: Option<(u64, u64)>,
        status: Option<String>,
    ) -> bool {
        &&& s.frame_counter == self.frame_counter
        &&& s.trace_len == self.trace@.len()
        &&& s.sub_count == self.obs.subs@.len()
        &&& s.replay == replay
        &&& s.channel_count == self.channels@.len()
        &&& s.laps == self.laps
        &&& s.bus_counter == self.bus_counter
        &&& s.sim_t_us == self.sim_t_us
        &&& s.sample_cover == self.sample_cover
        &&& s.spec_rows@ == self.monitor.rows.items@
        &&& s.nodes == p.nodes
        &&& s.blocks == p.blocks
        &&& s.write == p.write
        &&& s.emitted@.len() == self.obs.streams@.len()
        &&& forall|i: int|
            0 <= i < s.emitted@.len() ==> #[trigger] s.emitted@[i] == (
                self.obs.streams@[i].key,
                self.obs.streams@[i].owner,
            )
        &&& s.sysvars@.len() == self.sysvars@.len()
        &&& forall|i: int|
            0 <= i < s.sysvars@.len() ==> #[trigger] s.sysvars@[i] == (SysVarView {
                def: self.sysvars@[i].def,
                value: self.sysvars@[i].value,
            })
        &&& are_attachments(s.hw@, self.hw.buses.items@)
        &&& s.fr_watch == (match self.hw.fr_watch {
            Some(w) => Some(
                FrWatchView { channel_index: w.channel_index, fibex_path: w.fibex_path },
            ),
            None => None,
        })
        &&& s.real_bus == self.hw.live
        &&& s.triggers@ == self.triggers@
        &&& s.last_record == self.recorder.last_record
        &&& s.channels@.len() == self.channels@.len()
        &&& forall|i: int|
            0 <= i < s.channels@.len() ==> shows_channel(
                #[trigger] s.channels@[i],
                self.channels@[i],
            )
        &&& s.aggs@ == tallies(self.aggs.items@)
        &&& s.fr_aggs@.len() == self.fr_aggs.items@.len()
        &&& forall|i: int|
            0 <= i < s.fr_aggs@.len() ==> same_slot(
                #[trigger] s.fr_aggs@[i],
                self.fr_aggs.items@[i].1,
            )
        &&& s.subs@.len() == self.obs.subs@.len()
        &&& forall|i: int|
            0 <= i < s.subs@.len() ==> shows_sub(#[trigger] s.subs@[i], self.obs.subs@[i])
        &&& s.markers@ == self.markers@
        &&& s.tx@.len() == self.tx_list@.len()
        &&& forall|i: int|
            0 <= i < s.tx@.len() ==> shows_entry(
                #[trigger] s.tx@[i],
                self.tx_list@[i],
                self,
            )
        &&& s.trace == self.published_trace
        &&& s.fr_trace == self.published_fr
        &&& s.fr_dropped == self.fr_trace.dropped
        &&& s.mode == self.mode
        &&& s.run_mode == self.run_mode
        &&& s.measuring == self.measuring
        &&& s.trace_paused == self.trace_paused
        &&& s.recording == self.recorder.recording
        &&& s.status == status
    }

    /// One frame-shaped read of the bus. `replay` is where the source stands in its
    /// log and how long the log is; `status` is the news since the last read.
    pub fn snapshot(
        &self,
        p: &Published,
        replay: Option<(u64, u64)>,
        status: Option<String>,
    ) -> (s: Snapshot)
        ensures
            self.is_shown(s, *p, replay, status),
    {
        let mut sysvars: Vec<SysVarView> = Vec::new();
        for i in 0..self.sysvars.len()
            invariant
                sysvars@.len() == i,
                forall|k: int|
                    0 <= k < i ==> #[trigger] sysvars@[k] == (SysVarView {
                        def: self.sysvars@[k].def,
                        value: self.sysvars@[k].value,
                    }),
        {
            sysvars.push(
                SysVarView { def: self.sysvars[i].def.copied(), value: self.sysvars[i].value },
            );
        }
        let mut hw: Vec<HwBusView> = Vec::new();
        for i in 0..self.hw.buses.items.len()
            invariant
                hw@.len() == i,
                forall|k: int|
                    0 <= k < i ==> #[trigger] hw@[k] == (HwBusView {
                        bus: (self.hw.buses.items@[k].0 / crate::table::BUS_UNIT) as u8,
                        adapter: self.hw.buses.items@[k].1.adapter,
                        driver: self.hw.buses.items@[k].1.driver,
                        kbps: self.hw.buses.items@[k].1.kbps,
                        can_tx: self.hw.buses.items@[k].1.can_tx,
                        fd: self.hw.buses.items@[k].1.fd,
                    }),
        {
            let b: &bus_types::HwBus = &self.hw.buses.items[i].1;
            hw.push(
                HwBusView {
                    bus: #[verifier::truncate]
                    ((self.hw.buses.items[i].0 / crate::table::BUS_UNIT) as u8),
                    adapter: b.adapter,
                    driver: b.driver,
                    kbps: b.kbps,
                    can_tx: b.can_tx,
                    fd: b.fd,
                },
            );
        }
        let mut channels: Vec<ChannelView> = Vec::new();
        for i in 0..self.channels.len()
            invariant
                channels@.len() == i,
                forall|k: int|
                    0 <= k < i ==> shows_channel(#[trigger] channels@[k], self.channels@[k]),
        {
            channels.push(view_channel(&self.channels[i]));
        }
        let mut subs: Vec<SubView> = Vec::new();
        for i in 0..self.obs.subs.len()
            invariant
                subs@.len() == i,
                forall|k: int|
                    0 <= k < i ==> shows_sub(#[trigger] subs@[k], self.obs.subs@[k]),
        {
            subs.push(view_sub(&self.obs.subs[i]));
        }
        let mut tx: Vec<TxView> = Vec::new();
        for i in 0..self.tx_list.len()
            invariant
                tx@.len() == i,
                forall|k: int|
                    0 <= k < i ==> shows_entry(#[trigger] tx@[k], self.tx_list@[k], *self),
        {
            tx.push(self.view_entry(&self.tx_list[i]));
        }
        let fr_watch: Option<FrWatchView> = match &self.hw.fr_watch {
            Some(w) => Some(
                FrWatchView { channel_index: w.channel_index, fibex_path: w.fibex_path.clone() },
            ),
            None => None,
        };
        Snapshot {
            frame_counter: self.frame_counter,
            trace_len: self.trace.len(),
            sub_count: self.obs.subs.len(),
            replay,
            channel_count: self.channels.len(),
            laps: self.laps,
            bus_counter: self.bus_counter,
            sim_t_us: self.sim_t_us,
            sample_cover: self.sample_cover,
            spec_rows: copy_latches(&self.monitor.rows.items),
            nodes: share(&p.nodes),
            blocks: share(&p.blocks),
            emitted: view_streams(&self.obs.streams),
            sysvars,
            write: share(&p.write),
            hw,
            fr_watch,
            real_bus: self.hw.live,
            triggers: copy_triggers(&self.triggers),
            last_record: self.recorder.last_record.clone(),
            channels,
            aggs: copy_tallies(&self.aggs.items),
            fr_aggs: copy_slots(&self.fr_aggs.items),
            subs,
            markers: copy_words(&self.markers),
            tx,
            trace: share(&self.published_trace),
            fr_trace: share(&self.published_fr),
            fr_dropped: self.fr_trace.dropped,
            mode: self.mode,
            run_mode: self.run_mode,
            measuring: self.measuring,
            trace_paused: self.trace_paused,
            recording: self.recorder.recording,
            status,
        }
    }

    /// The values that scripts on a bus may read, from the last frame of each
    /// message seen on it.
    pub fn node_signals(&self, ch: u8) -> (r: Vec<(u32, DecodedSignal)>)
        requires
            self.wf(),
        ensures
            r@ == script_signals(
                self.channels@,
                self.aggs.items@,
                ch,
                self.aggs.items@.len() as int,
            ),
    {
        let mut all: Vec<(u32, DecodedSignal)> = Vec::new();
        for i in 0..self.aggs.items.len()
            invariant
                self.wf(),
                all@ == script_signals(self.channels@, self.aggs.items@, ch, i as int),
        {
            let a: &MessageAgg = &self.aggs.items[i].1;
            if a.channel == ch {
                proof {
                    crate::table::lemma_item(self.aggs.items@, i as int);
                }
                let f: CanFrame = a.frame();
                let id: u32 = a.id;
                let signals: Vec<DecodedSignal> = bus_ingest::decode_on(&self.channels, &f);
                let ghost held = all@;
                let ghost decoded = signals@;
                for s in it: signals
                    invariant
                        it.seq() == decoded,
                        all@ == held + labelled(id, decoded).subrange(0, it.index() as int),
                {
                    assert(s == decoded[it.index() as int]);
                    all.push((id, s));
                    assert(all@ =~= held + labelled(id, decoded).subrange(0, it.index() + 1));
                }
                assert(labelled(id, decoded).subrange(0, decoded.len() as int) =~= labelled(
                    id,
                    decoded,
                ));
            }
        }
        all
    }

    /// Stores a script's write to a system variable. Returns the line for the
    /// writing node's log where no such variable is defined and the node exists.
    pub fn apply_sys_write(&mut self, node_id: u64, key: &str, value: Double) -> (note: Option<
        String,
    >)
        requires
            old(self).wf(),
        ensures
            final(self).wf(),
            old(self).is_var_written(*final(self), key@, value),
            note is Some == (bus_types::var_index(old(self).sysvars@, key@, 0) < 0
                && bus_types::node_index(old(self).nodes@, node_id, 0) >= 0),
            note is Some ==> (note->0)@ == "[sysvar] 未定义，写入被丢弃: \""@ + key@ + "\""@,
    {
        if self.sysvar_write(key, value) {
            return None;
        }
        match find_node(&self.nodes, node_id) {
            Some(_) => {
                let mut line: String = "[sysvar] 未定义，写入被丢弃: \"".to_owned();
                line.append(key);
                line.append("\"");
                Some(line)
            },
            None => None,
        }
    }

    /// The generator holds an entry for every message that the databases declare.
    pub open spec fn is_populated(self, after: BusCore) -> bool {
        &&& bus::are_added(
            self.channels@,
            bus::declared_messages(self.channels@, self.channels@.len() as int),
            self.tx_list@,
            after.tx_list@,
        )
        &&& after == (BusCore { tx_list: after.tx_list, ..self })
    }

    /// Adds an entry for every message that the databases declare.
    pub fn populate_generator(&mut self)
        requires
            old(self).wf(),
        ensures
            final(self).wf(),
            old(self).is_populated(*final(self)),
    {
        let ids: Vec<(u8, u32)> = messages_of_buses(&self.channels);
        add_entries(&self.channels, &mut self.tx_list, &ids);
    }
}

/// Publishing is idle work: where nothing changed, what was published stays.
pub proof fn law_an_idle_bus_publishes_nothing(
    core: BusCore,
    after: BusCore,
    before: Published,
    p: Published,
)
    requires
        !core.nodes_dirty,
        core.are_nodes_published(after, before, p),
    ensures
        p == before,
        after == core,
{
}

/// An entry shows what the wire saw: an entry that sent shows that payload, one that
/// never did shows its base.
pub proof fn law_entries_show_what_was_sent(v: TxView, t: TxMsg, core: BusCore)
    requires
        shows_entry(v, t, core),
    ensures
        t.last_len > 0 ==> v.sent_data == t.last_sent,
        t.last_len == 0 ==> v.sent_data == t.data,
        v.sent_text@ == generator::payload_text(
            v.sent_data@,
            if t.last_len > 0 {
                t.last_len
            } else {
                t.len
            },
        ),
{
}

} // verus!
