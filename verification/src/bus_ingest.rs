//! What happens to a frame on the bus: tallies, samples, triggers and their
//! reactions.

use vstd::prelude::*;
use vstd::string::*;
use crate::aggregate;
use crate::aggregate::{Interval, MessageAgg};
use crate::app::Mode;
use crate::bus;
use crate::bus::{find_entry, BusCore, BusLoad, LoadNote, WRITE_LOG_CAP};
use crate::bus_types;
use crate::bus_types::{find_var, kind_of_line, wall_us_now, Double, SysVar, WriteKind, WriteLine};
use crate::can::frame;
use crate::can::frame::{dlc2len, len2dlc, CanFrame, Direction, FrameFlags};
use crate::channel;
use crate::channel::Channel;
use crate::dbc::{DecodedSignal, SymbolTable};
use crate::generator;
use crate::generator::TxMsg;
use crate::monitor;
use crate::monitor::missing_offender;
use crate::observe;
use crate::observe::SigKey;
use crate::observers;
use crate::observers::{KeyState, Observers, Watch, SYSVAR_STREAM_ID};
use crate::table;
use crate::text;
use crate::trace;
use crate::trace::{count_one, FrRow};
use crate::triggers::{Trigger, TriggerAction, TriggerCond};

verus! {

/// What a frame decodes to on its bus.
pub open spec fn decoded_on(channels: Seq<Channel>, f: CanFrame) -> Seq<DecodedSignal> {
    match channel::table_on(channels, f.channel) {
        Some(t) => t.decoded(f),
        None => Seq::empty(),
    }
}

/// The signals a frame carries by its bus's database.
pub fn decode_on(channels: &Vec<Channel>, f: &CanFrame) -> (r: Vec<DecodedSignal>)
    requires
        f.wf(),
    ensures
        r@ == decoded_on(channels@, *f),
{
    match channel::channel_dbc(channels, f.channel) {
        Some(t) => {
            let r: Vec<DecodedSignal> = t.decode_signals(f);
            proof {
                t.lemma_decoded(*f, r@);
            }
            r
        },
        None => Vec::new(),
    }
}

/// Some decoded signal has the name.
pub open spec fn names(decoded: Seq<DecodedSignal>, name: Seq<char>) -> bool {
    exists|i: int| 0 <= i < decoded.len() && (#[trigger] decoded[i]).name@ == name
}

fn carries(decoded: &Vec<DecodedSignal>, name: &str) -> (r: bool)
    ensures
        r == names(decoded@, name@),
{
    for i in 0..decoded.len()
        invariant
            forall|k: int| 0 <= k < i ==> (#[trigger] decoded@[k]).name@ != name@,
    {
        if text::same_text(decoded[i].name.as_str(), name) {
            return true;
        }
    }
    false
}

/// The display type that the databases declare for a signal.
pub open spec fn meta_of(channels: Seq<Channel>, key: SigKey) -> Seq<char> {
    match channel::table_on(channels, key.ch) {
        Some(t) => observe::declared_type(t, key),
        None => Seq::empty(),
    }
}

/// The display type of a subscribed signal, until the first frame refreshes it.
pub fn signal_meta(channels: &Vec<Channel>, key: &SigKey) -> (r: String)
    ensures
        r@ == meta_of(channels@, *key),
{
    match channel::channel_dbc(channels, key.ch) {
        Some(t) => observe::type_of(t, key),
        None => String::new(),
    }
}

/// The display type by a key's contents.
pub open spec fn meta_by(channels: Seq<Channel>, key: KeyState) -> Seq<char> {
    match channel::table_on(channels, key.ch) {
        Some(t) => match t.signal_spec(key.id, key.signal) {
            Some(s) => s.type_tag@,
            None => Seq::empty(),
        },
        None => Seq::empty(),
    }
}

/// A frame that a script queued: an id above the standard range travels extended
/// unless the script forced it anyway; more than 8 bytes make it a CAN FD frame,
/// snapped to a valid length.
pub open spec fn scripted_frame(
    channel: u8,
    id: u32,
    force_extended: bool,
    data: Seq<u8>,
    t_us: u64,
    f: CanFrame,
) -> bool {
    let n = if data.len() <= 64 {
        data.len() as int
    } else {
        64
    };
    &&& f.t_us == t_us
    &&& f.channel == channel
    &&& f.id == id
    &&& f.extended == (force_extended || id > 0x7FF)
    &&& f.len == generator::snapped(n)
    &&& f.flags == (if n > 8 {
        FrameFlags::fd()
    } else {
        FrameFlags::none()
    })
    &&& f.data@ == generator::zero_filled(data.subrange(0, n))
    &&& f.dir == Direction::Tx
}

/// Builds a frame that a script queued.
pub fn node_frame(channel: u8, id: u32, force_extended: bool, data: &[u8], t_us: u64) -> (f:
    CanFrame)
    ensures
        scripted_frame(channel, id, force_extended, data@, t_us, f),
        f.wf(),
{
    let n: usize = if data.len() <= 64 {
        data.len()
    } else {
        64
    };
    let (len, flags): (u8, FrameFlags) = if n > 8 {
        (dlc2len(len2dlc(n as u8)), FrameFlags::fd())
    } else {
        (n as u8, FrameFlags::none())
    };
    let head: &[u8] = vstd::slice::slice_subrange(data, 0, n);
    let buf: [u8; 64] = generator::fill(head);
    CanFrame {
        t_us,
        channel,
        id,
        extended: force_extended || id > 0x7FF,
        len,
        data: buf,
        dir: Direction::Tx,
        flags,
    }
}

/// The payload of a frame that goes out.
pub ghost struct Outgoing {
    pub data: Seq<u8>,
    pub len: u8,
    pub flags: FrameFlags,
}

/// A payload after one mirrored value is encoded over it.
pub open spec fn is_mirrored(
    t: SymbolTable,
    id: u32,
    name: Seq<char>,
    raw: Option<u64>,
    before: Outgoing,
    after: Outgoing,
) -> bool {
    let reached = generator::length_after(t, id, name, raw, before.len as int);
    &&& generator::is_laid(t, id, name, raw, before.data, after.data)
    &&& if t.signal_spec(id, name) is Some && raw is Some {
        after.len == generator::snapped(reached) && after.flags == generator::flagged(
            before.flags,
            reached,
        )
    } else {
        after.len == before.len && after.flags == before.flags
    }
}

/// `steps` are the payloads as the mirrored values are encoded one after the
/// other; a bus without a database mirrors nothing.
pub open spec fn are_mirrors(
    table: Option<SymbolTable>,
    id: u32,
    mirror: Seq<(String, Option<u64>)>,
    steps: Seq<Outgoing>,
) -> bool {
    match table {
        Some(t) => {
            &&& steps.len() == mirror.len() + 1
            &&& forall|k: int|
                #![trigger mirror[k]]
                0 <= k < mirror.len() ==> is_mirrored(
                    t,
                    id,
                    mirror[k].0@,
                    mirror[k].1,
                    steps[k],
                    steps[k + 1],
                )
        },
        None => steps.len() == 1,
    }
}

/// `sent` is the payload that one frame from the entry carries: its base bytes
/// and driven values, and the mirrored values over them.
pub open spec fn is_one_shot(
    table: Option<SymbolTable>,
    tx: TxMsg,
    raws: Seq<Option<u64>>,
    mirror: Seq<(String, Option<u64>)>,
    sent: Outgoing,
) -> bool {
    exists|steps: Seq<Outgoing>|
        {
            &&& #[trigger] are_mirrors(table, tx.id, mirror, steps)
            &&& generator::is_payload(
                table,
                tx,
                raws,
                steps[0].data,
                steps[0].len,
                steps[0].flags,
            )
            &&& sent == steps.last()
        }
}

/// The frame of an entry with that payload.
pub open spec fn entry_frame(tx: TxMsg, t_us: u64, sent: Outgoing, f: CanFrame) -> bool {
    &&& f.t_us == t_us
    &&& f.channel == tx.channel
    &&& f.id == tx.id
    &&& f.extended == tx.extended
    &&& f.len == sent.len
    &&& f.data@ == sent.data
    &&& f.dir == Direction::Tx
    &&& f.flags == sent.flags
}

/// The value of a trigger rule's condition when a frame arrives: nothing where
/// the frame says nothing about it. `crossed` tells whether the frame's value
/// stands on the far side of the threshold.
pub open spec fn frame_level(t: Trigger, f: CanFrame, channels: Seq<Channel>, crossed: bool) -> Option<
    bool,
> {
    if !t.enabled {
        None
    } else {
        match t.cond {
            TriggerCond::SignalCross { ch, id, ext, signal, .. } => {
                if f.channel == ch && f.id == id && f.extended == ext && !f.flags.has(
                    FrameFlags::error(),
                ) && channel::table_on(channels, ch) is Some && names(
                    decoded_on(channels, f),
                    signal@,
                ) {
                    Some(crossed)
                } else {
                    None
                }
            },
            TriggerCond::IdPresent { ch, id } => {
                if f.channel == ch && f.id == id && !f.flags.has(FrameFlags::error()) {
                    Some(true)
                } else {
                    None
                }
            },
            TriggerCond::ErrorFrame { ch } => {
                if f.channel == ch && f.flags.has(FrameFlags::error()) {
                    Some(true)
                } else {
                    None
                }
            },
            TriggerCond::CycleTimeout { .. } => None,
            TriggerCond::SysVar { .. } => None,
        }
    }
}

/// A verdict of a list; no verdict where the list has none.
pub open spec fn flag_at(flags: Seq<bool>, i: int) -> bool {
    0 <= i < flags.len() && flags[i]
}

/// The rules after they were judged, each by its level.
pub open spec fn judged_rules(rules: Seq<Trigger>, levels: Seq<Option<bool>>, t_us: u64) -> Seq<
    Trigger,
> {
    Seq::new(
        rules.len(),
        |i: int|
            match levels[i] {
                Some(l) => rules[i].judged(l, t_us),
                None => rules[i],
            },
    )
}

/// The actions of the rules among the first `n` that see an edge.
pub open spec fn fired(rules: Seq<Trigger>, levels: Seq<Option<bool>>, n: int) -> Seq<TriggerAction>
    decreases n,
{
    if n <= 0 {
        Seq::empty()
    } else {
        let before = fired(rules, levels, n - 1);
        if levels[n - 1] == Some(true) && !rules[n - 1].level {
            before.push(rules[n - 1].action)
        } else {
            before
        }
    }
}

/// Judges every rule by its level and returns the actions of the edges.
fn judge_rules(rules: &mut Vec<Trigger>, levels: &Vec<Option<bool>>, t_us: u64) -> (r: Vec<
    TriggerAction,
>)
    requires
        levels@.len() == old(rules)@.len(),
    ensures
        final(rules)@ == judged_rules(old(rules)@, levels@, t_us),
        r@ == fired(old(rules)@, levels@, old(rules)@.len() as int),
{
    let mut r: Vec<TriggerAction> = Vec::new();
    let total: usize = rules.len();
    for i in 0..total
        invariant
            total == old(rules)@.len(),
            levels@.len() == total,
            rules@.len() == total,
            forall|k: int|
                0 <= k < i ==> rules@[k] == judged_rules(old(rules)@, levels@, t_us)[k],
            forall|k: int| i <= k < total ==> rules@[k] == old(rules)@[k],
            r@ == fired(old(rules)@, levels@, i as int),
    {
        match levels[i] {
            Some(now) => {
                let t: &mut Trigger = &mut rules[i];
                let action: TriggerAction = t.action;
                if t.judge(now, t_us) {
                    r.push(action);
                }
            },
            None => {},
        }
    }
    assert(rules@ =~= judged_rules(old(rules)@, levels@, t_us));
    r
}

/// The watchers after the first `n` system variables publish their values.
pub open spec fn with_vars(
    w: Watch,
    channels: Seq<Channel>,
    vars: Seq<SysVar>,
    t_us: u64,
    stride: u64,
    n: int,
) -> Watch
    decreases n,
{
    if n <= 0 {
        w
    } else {
        let key = observers::stream_key(0, SYSVAR_STREAM_ID, vars[n - 1].def.name@);
        with_vars(w, channels, vars, t_us, stride, n - 1).emitted(
            key,
            vars[n - 1].def.namespace@,
            meta_by(channels, key),
            vars[n - 1].value.bits,
            vars[n - 1].value.whole,
            t_us,
            stride,
        )
    }
}

/// Publishes one value of a system variable.
fn publish_var(
    obs: &mut Observers,
    channels: &Vec<Channel>,
    namespace: &str,
    name: &str,
    value: Double,
    t_us: u64,
    stride: u64,
) -> (opened: bool)
    requires
        old(obs).wf(),
    ensures
        final(obs).wf(),
        ({
            let key = observers::stream_key(0, SYSVAR_STREAM_ID, name@);
            &&& final(obs)@ == old(obs)@.emitted(
                key,
                namespace@,
                meta_by(channels@, key),
                value.bits,
                value.whole,
                t_us,
                stride,
            )
            &&& opened == (!observers::has_stream(old(obs)@.streams, key) && !old(obs)@.is_full(
                key,
            ))
        }),
{
    let key: SigKey = SigKey {
        ch: 0,
        id: observers::stream_id_of(SYSVAR_STREAM_ID),
        ext: false,
        signal: name.to_owned(),
    };
    let meta: String = signal_meta(channels, &key);
    assert(key@ == observers::stream_key(0, SYSVAR_STREAM_ID, name@));
    obs.emit(key, namespace, meta, value.bits, value.whole, t_us, stride)
}

/// Publishes every system variable's value.
pub fn publish_vars(
    obs: &mut Observers,
    channels: &Vec<Channel>,
    vars: &Vec<SysVar>,
    t_us: u64,
    stride: u64,
) -> (opened: bool)
    requires
        old(obs).wf(),
    ensures
        final(obs).wf(),
        final(obs)@ == with_vars(
            old(obs)@,
            channels@,
            vars@,
            t_us,
            stride,
            vars@.len() as int,
        ),
        opened == (final(obs)@.streams.len() > old(obs)@.streams.len()),
{
    let mut opened: bool = false;
    for i in 0..vars.len()
        invariant
            obs.wf(),
            obs@ == with_vars(old(obs)@, channels@, vars@, t_us, stride, i as int),
            obs@.streams.len() >= old(obs)@.streams.len(),
            opened == (obs@.streams.len() > old(obs)@.streams.len()),
    {
        let new: bool = publish_var(
            obs,
            channels,
            vars[i].def.namespace.as_str(),
            vars[i].def.name.as_str(),
            vars[i].value,
            t_us,
            stride,
        );
        opened = opened || new;
    }
    opened
}

/// The tally of a message of either class on a bus, the standard one first.
pub open spec fn either_agg(aggs: Map<u64, MessageAgg>, ch: u8, id: u32) -> Option<MessageAgg> {
    if aggs.dom().contains(table::message_key(ch, id, false)) {
        Some(aggs[table::message_key(ch, id, false)])
    } else if aggs.dom().contains(table::message_key(ch, id, true)) {
        Some(aggs[table::message_key(ch, id, true)])
    } else {
        None
    }
}

/// The cycle that a bus's database declares for a message.
pub open spec fn cycle_on(channels: Seq<Channel>, ch: u8, id: u32) -> Option<u64> {
    match channel::table_on(channels, ch) {
        Some(t) => if t.messages@.dom().contains(id) {
            t.messages@[id].cycle_us
        } else {
            None
        },
        None => None,
    }
}

/// What the database declares for a message: `Some(0)` for an event-triggered
/// one, nothing when it says nothing at all.
pub fn dbc_cycle_us(channels: &Vec<Channel>, ch: u8, id: u32) -> (r: Option<u64>)
    ensures
        r == cycle_on(channels@, ch, id),
{
    broadcast use vstd::std_specs::hash::group_hash_axioms;

    match channel::channel_dbc(channels, ch) {
        Some(t) => match t.messages.get(&id) {
            Some(m) => m.cycle_us,
            None => None,
        },
        None => None,
    }
}

impl BusCore {
    /// What the load view of the frame's bus is told.
    pub open spec fn noted_loads(self, f: CanFrame, after: Seq<BusLoad>) -> bool {
        let c = f.channel as int;
        if c < self.bus_loads@.len() && c < self.channels@.len() {
            &&& after == self.bus_loads@.update(c, after[c])
            &&& after[c].notes@ == self.bus_loads@[c].notes@.push(
                LoadNote {
                    frame: f,
                    arb_kbps: self.channels@[c].bitrate_kbps,
                    data_kbps: self.channels@[c].fd_data_kbps,
                },
            )
        } else {
            after == self.bus_loads@
        }
    }

    /// One frame is folded into every consumer on the bus. An error frame has
    /// neither id nor payload: it is counted and traced, not tallied.
    pub open spec fn is_ingested(
        self,
        after: BusCore,
        f: CanFrame,
        stride: u64,
        r: Option<Interval>,
    ) -> bool {
        let error = f.flags.has(FrameFlags::error());
        let decoded = decoded_on(self.channels@, f);
        let before = aggregate::agg_before(self.aggs@, f);
        &&& after.frame_counter == trace::counted(self.frame_counter, 1)
        &&& self.noted_loads(f, after.bus_loads@)
        &&& after.trace@ == trace::newest(self.trace@.push(f), self.trace_limit as int)
        &&& after.trace.dropped == trace::counted(
            self.trace.dropped,
            trace::overflow(self.trace@.push(f), self.trace_limit as int),
        )
        &&& if error {
            &&& after.aggs == self.aggs
            &&& after.obs == self.obs
            &&& r is None
        } else {
            &&& after.aggs@ == self.aggs@.insert(
                aggregate::frame_key(f),
                aggregate::folded(before, f),
            )
            &&& after.obs@.subs == observers::watched(
                self.obs@.subs,
                f,
                decoded,
                stride,
                decoded.len() as int,
            )
            &&& after.obs.streams == self.obs.streams
            &&& after.obs.color_counter == self.obs.color_counter
            &&& r == aggregate::closed_interval(before.count, before.last_t_us, f.t_us)
        }
        &&& after == (BusCore {
            frame_counter: after.frame_counter,
            bus_loads: after.bus_loads,
            trace: after.trace,
            aggs: after.aggs,
            obs: after.obs,
            ..self
        })
    }

    /// Folds one accepted frame into every consumer on the bus: the trace, the run
    /// counter, the load view, the tallies and the subscribed signals. Returns the
    /// interval that the frame closes.
    pub fn ingest(&mut self, f: CanFrame, stride: u64) -> (r: Option<Interval>)
        requires
            old(self).wf(),
            f.wf(),
        ensures
            final(self).wf(),
            old(self).is_ingested(*final(self), f, stride, r),
    {
        let ghost before = *self;
        self.frame_counter = count_one(self.frame_counter);
        let c: usize = f.channel as usize;
        if c < self.bus_loads.len() && c < self.channels.len() {
            let note: LoadNote = LoadNote {
                frame: f,
                arb_kbps: self.channels[c].bitrate_kbps,
                data_kbps: self.channels[c].fd_data_kbps,
            };
            let load: &mut BusLoad = &mut self.bus_loads[c];
            load.notes.push(note);
            assert(self.bus_loads@ =~= before.bus_loads@.update(
                c as int,
                self.bus_loads@[c as int],
            ));
        }
        if f.is_error() {
            self.trace.push(f, self.trace_limit);
            return None;
        }
        let r: Option<Interval> = aggregate::fold_frame(&mut self.aggs, &f);
        let decoded: Vec<DecodedSignal> = decode_on(&self.channels, &f);
        self.obs.watch(&f, &decoded, stride);
        self.trace.push(f, self.trace_limit);
        r
    }

    /// One FlexRay frame lands in its own ring and its slot's tally; a row without
    /// a time of its own is stamped by the simulated clock.
    pub open spec fn is_fr_ingested(
        self,
        after: BusCore,
        row: FrRow,
        r: Option<Interval>,
    ) -> bool {
        let t = if row.t_us == 0 {
            self.sim_t_us
        } else {
            row.t_us
        };
        let stamped = std::sync::Arc::new(FrRow { t_us: t, ..row });
        let before = aggregate::slot_before(self.fr_aggs@, row.slot);
        &&& after.fr_aggs@.dom() == self.fr_aggs@.dom().insert(row.slot as u64)
        &&& aggregate::is_slot_folded(before, after.fr_aggs@[row.slot as u64], row, t)
        &&& forall|k: u64|
            k != row.slot && self.fr_aggs@.dom().contains(k) ==> #[trigger] after.fr_aggs@[k]
                == self.fr_aggs@[k]
        &&& after.fr_trace@ == trace::newest(
            self.fr_trace@.push(stamped),
            self.trace_limit as int,
        )
        &&& after.fr_trace.dropped == trace::counted(
            self.fr_trace.dropped,
            trace::overflow(self.fr_trace@.push(stamped), self.trace_limit as int),
        )
        &&& r == (match before {
            Some(b) => aggregate::closed_interval(b.count, b.last_t_us, t),
            None => None,
        })
        &&& after == (BusCore { fr_aggs: after.fr_aggs, fr_trace: after.fr_trace, ..self })
    }

    /// Takes in one FlexRay row. Rows skip the CAN tallies, loads and
    /// subscriptions.
    pub fn ingest_fr_row(&mut self, row: FrRow) -> (r: Option<Interval>)
        requires
            old(self).wf(),
        ensures
            final(self).wf(),
            old(self).is_fr_ingested(*final(self), row, r),
    {
        let t: u64 = if row.t_us == 0 {
            self.sim_t_us
        } else {
            row.t_us
        };
        let r: Option<Interval> = aggregate::fold_slot(&mut self.fr_aggs, &row, t);
        let stamped: FrRow = FrRow {
            t_us: t,
            ab: row.ab,
            slot: row.slot,
            cycle: row.cycle,
            payload: row.payload,
            header_crc: row.header_crc,
            flags: row.flags,
        };
        self.fr_trace.push(stamped, self.trace_limit);
        r
    }

    /// The clock of this mode can say what is still talking.
    pub open spec fn is_live(self) -> bool {
        self.mode == Mode::Virtual && !self.trace_paused
    }

    /// Compares what arrived against what the databases promise.
    pub fn check_spec(&mut self, tol_pct: u64, grace: u64)
        requires
            old(self).wf(),
        ensures
            final(self).wf(),
            final(self).monitor.rows@ == monitor::swept(
                old(self).monitor.rows@,
                old(self).monitor.seen@,
                old(self).channels@,
                old(self).aggs.items@,
                old(self).sim_t_us,
                old(self).is_live(),
                tol_pct,
                grace,
                old(self).aggs.items@.len() as int,
            ),
            final(self).monitor.seen@ == monitor::noted(
                old(self).monitor.seen@,
                old(self).aggs.items@,
                old(self).aggs.items@.len() as int,
            ),
            *final(self) == (BusCore { monitor: final(self).monitor, ..*old(self) }),
    {
        let live: bool = self.mode == Mode::Virtual && !self.trace_paused;
        self.monitor.check(
            &self.channels,
            &self.aggs,
            self.sim_t_us,
            live,
            tol_pct,
            grace,
        );
    }

    /// The levels of all rules as a frame arrives.
    pub open spec fn frame_levels(self, f: CanFrame, crossed: Seq<bool>) -> Seq<Option<bool>> {
        Seq::new(
            self.triggers@.len(),
            |i: int| frame_level(self.triggers@[i], f, self.channels@, flag_at(crossed, i)),
        )
    }

    /// Folds one frame into every enabled rule and returns the actions of the
    /// edges, in the order of the rules. `crossed` tells of each rule whether the
    /// frame's value stands on the far side of its threshold.
    pub fn eval_triggers(&mut self, f: &CanFrame, crossed: &Vec<bool>) -> (r: Vec<TriggerAction>)
        requires
            old(self).wf(),
            f.wf(),
        ensures
            final(self).wf(),
            final(self).triggers@ == judged_rules(
                old(self).triggers@,
                old(self).frame_levels(*f, crossed@),
                f.t_us,
            ),
            r@ == fired(
                old(self).triggers@,
                old(self).frame_levels(*f, crossed@),
                old(self).triggers@.len() as int,
            ),
            *final(self) == (BusCore { triggers: final(self).triggers, ..*old(self) }),
    {
        let decoded: Vec<DecodedSignal> = decode_on(&self.channels, f);
        let mut levels: Vec<Option<bool>> = Vec::new();
        let total: usize = self.triggers.len();
        for i in 0..total
            invariant
                total == self.triggers@.len(),
                *self == *old(self),
                decoded@ == decoded_on(self.channels@, *f),
                levels@ == self.frame_levels(*f, crossed@).subrange(0, i as int),
        {
            let t: &Trigger = &self.triggers[i];
            let across: bool = i < crossed.len() && crossed[i];
            let level: Option<bool> = if !t.enabled {
                None
            } else {
                match &t.cond {
                    TriggerCond::SignalCross { ch, id, ext, signal, .. } => {
                        if f.channel == *ch && f.id == *id && f.extended == *ext && !f.is_error()
                            && channel::channel_dbc(&self.channels, *ch).is_some() && carries(
                            &decoded,
                            signal.as_str(),
                        ) {
                            Some(across)
                        } else {
                            None
                        }
                    },
                    TriggerCond::IdPresent { ch, id } => {
                        if f.channel == *ch && f.id == *id && !f.is_error() {
                            Some(true)
                        } else {
                            None
                        }
                    },
                    TriggerCond::ErrorFrame { ch } => {
                        if f.channel == *ch && f.is_error() {
                            Some(true)
                        } else {
                            None
                        }
                    },
                    TriggerCond::CycleTimeout { .. } => None,
                    TriggerCond::SysVar { .. } => None,
                }
            };
            levels.push(level);
            assert(levels@ =~= self.frame_levels(*f, crossed@).subrange(0, i + 1));
        }
        assert(levels@ =~= self.frame_levels(*f, crossed@));
        judge_rules(&mut self.triggers, &levels, f.t_us)
    }

    /// A message that was seen has been silent for longer than the grace allows.
    pub open spec fn is_silent(self, ch: u8, id: u32, now_us: u64, grace: u64) -> bool {
        let agg = either_agg(self.aggs@, ch, id);
        let declared = cycle_on(self.channels@, ch, id);
        agg is Some && declared is Some && monitor::is_missing_offender(
            now_us,
            agg->0.last_t_us,
            declared->0,
            grace,
        )
    }

    fn timeout_silent(&self, ch: u8, id: u32, now_us: u64, grace: u64) -> (r: bool)
        requires
            self.wf(),
        ensures
            r == self.is_silent(ch, id, now_us, grace),
    {
        let last: u64 = match self.aggs.get(table::key_of_message(ch, id, false)) {
            Some(a) => a.last_t_us,
            None => match self.aggs.get(table::key_of_message(ch, id, true)) {
                Some(a) => a.last_t_us,
                None => {
                    return false;
                },
            },
        };
        match dbc_cycle_us(&self.channels, ch, id) {
            Some(d) => missing_offender(now_us, last, d, grace),
            None => false,
        }
    }

    /// The value of a rule's condition in the sweep of a step.
    pub open spec fn sweep_level(
        self,
        t: Trigger,
        now_us: u64,
        grace: u64,
        crossed: bool,
    ) -> Option<bool> {
        if !t.enabled {
            None
        } else {
            match t.cond {
                TriggerCond::CycleTimeout { ch, id } => Some(
                    self.is_silent(ch, id, now_us, grace),
                ),
                TriggerCond::SysVar { .. } => Some(crossed),
                _ => None,
            }
        }
    }

    pub open spec fn sweep_levels(self, now_us: u64, grace: u64, crossed: Seq<bool>) -> Seq<
        Option<bool>,
    > {
        Seq::new(
            self.triggers@.len(),
            |i: int| self.sweep_level(self.triggers@[i], now_us, grace, flag_at(crossed, i)),
        )
    }

    /// Sweeps the conditions that no single frame decides: silence against the
    /// tallies, and system variables. `crossed` tells of each rule whether its
    /// variable stands on the far side of its threshold.
    pub fn eval_timeout_triggers(&mut self, now_us: u64, grace: u64, crossed: &Vec<bool>) -> (r:
        Vec<TriggerAction>)
        requires
            old(self).wf(),
        ensures
            final(self).wf(),
            final(self).triggers@ == judged_rules(
                old(self).triggers@,
                old(self).sweep_levels(now_us, grace, crossed@),
                now_us,
            ),
            r@ == fired(
                old(self).triggers@,
                old(self).sweep_levels(now_us, grace, crossed@),
                old(self).triggers@.len() as int,
            ),
            *final(self) == (BusCore { triggers: final(self).triggers, ..*old(self) }),
    {
        let mut levels: Vec<Option<bool>> = Vec::new();
        let total: usize = self.triggers.len();
        for i in 0..total
            invariant
                total == self.triggers@.len(),
                *self == *old(self),
                self.wf(),
                levels@ == self.sweep_levels(now_us, grace, crossed@).subrange(0, i as int),
        {
            let t: &Trigger = &self.triggers[i];
            let across: bool = i < crossed.len() && crossed[i];
            let level: Option<bool> = if !t.enabled {
                None
            } else {
                match &t.cond {
                    TriggerCond::CycleTimeout { ch, id } => Some(
                        self.timeout_silent(*ch, *id, now_us, grace),
                    ),
                    TriggerCond::SysVar { .. } => Some(across),
                    _ => None,
                }
            };
            levels.push(level);
            assert(levels@ =~= self.sweep_levels(now_us, grace, crossed@).subrange(0, i + 1));
        }
        assert(levels@ =~= self.sweep_levels(now_us, grace, crossed@));
        judge_rules(&mut self.triggers, &levels, now_us)
    }

    /// One frame from the entry of a message is put on the bus, if there is one.
    pub open spec fn is_sent(
        self,
        after: BusCore,
        ch: u8,
        id: u32,
        at_us: u64,
        raws: Seq<Option<u64>>,
        mirror: Seq<(String, Option<u64>)>,
    ) -> bool {
        let k = bus::entry_index(self.tx_list@, ch, id, 0);
        if k < 0 {
            after == self
        } else {
            let was = self.tx_list@[k];
            let now = after.tx_list@[k];
            let sent = Outgoing {
                data: now.last_sent@,
                len: now.last_len,
                flags: after.buf@.last().flags,
            };
            &&& after.tx_list@ == self.tx_list@.update(k, now)
            &&& now == (TxMsg { last_sent: now.last_sent, last_len: now.last_len, ..was })
            &&& is_one_shot(
                channel::table_on(self.channels@, was.channel),
                was,
                raws,
                mirror,
                sent,
            )
            &&& after.buf@.len() == self.buf@.len() + 1
            &&& after.buf@.drop_last() == self.buf@
            &&& entry_frame(was, at_us, sent, after.buf@.last())
            &&& after == (BusCore { tx_list: after.tx_list, buf: after.buf, ..self })
        }
    }

    /// Every frame of this step has a payload that fits.
    pub open spec fn buf_fits(self) -> bool {
        forall|i: int| 0 <= i < self.buf@.len() ==> (#[trigger] self.buf@[i]).wf()
    }

    /// Transmits one frame from a generator entry: its base bytes and driven
    /// values, and over them the mirrored values of the frame it reacts to. The
    /// frame joins this step like received traffic.
    #[verifier::rlimit(60)]
    pub fn send_one_shot(
        &mut self,
        ch: u8,
        id: u32,
        at_us: u64,
        raws: &Vec<Option<u64>>,
        mirror: &Vec<(String, Option<u64>)>,
    )
        requires
            old(self).wf(),
            old(self).buf_fits(),
        ensures
            final(self).wf(),
            final(self).buf_fits(),
            old(self).is_sent(*final(self), ch, id, at_us, raws@, mirror@),
    {
        let i: usize = match find_entry(&self.tx_list, ch, id) {
            Some(i) => i,
            None => {
                return;
            },
        };
        let ghost before = *self;
        let ghost was = self.tx_list@[i as int];
        let (mut data, mut len, mut flags): ([u8; 64], u8, FrameFlags) = generator::tx_payload(
            &self.channels,
            &self.tx_list[i],
            raws,
        );
        let target: u8 = self.tx_list[i].channel;
        let ghost table = channel::table_on(self.channels@, was.channel);
        let ghost mut steps: Seq<Outgoing> = seq![Outgoing { data: data@, len, flags }];
        match channel::channel_dbc(&self.channels, target) {
            Some(t) => {
                let total: usize = mirror.len();
                for k in 0..total
                    invariant
                        total == mirror@.len(),
                        table == Some(*t),
                        id == was.id,
                        len <= 64,
                        steps.len() == k + 1,
                        steps[k as int] == (Outgoing { data: data@, len, flags }),
                        generator::is_payload(
                            table,
                            was,
                            raws@,
                            steps[0].data,
                            steps[0].len,
                            steps[0].flags,
                        ),
                        forall|j: int|
                            #![trigger mirror@[j]]
                            0 <= j < k ==> is_mirrored(
                                *t,
                                was.id,
                                mirror@[j].0@,
                                mirror@[j].1,
                                steps[j],
                                steps[j + 1],
                            ),
                {
                    let ghost held = steps;
                    generator::encode_mirror(
                        t,
                        id,
                        mirror[k].0.as_str(),
                        mirror[k].1,
                        &mut data,
                        &mut len,
                        &mut flags,
                    );
                    proof {
                        steps = steps.push(Outgoing { data: data@, len, flags });
                        assert forall|j: int|
                            #![trigger mirror@[j]]
                            0 <= j < k + 1 implies is_mirrored(
                            *t,
                            was.id,
                            mirror@[j].0@,
                            mirror@[j].1,
                            steps[j],
                            steps[j + 1],
                        ) by {
                            if j < k {
                                assert(steps[j] == held[j] && steps[j + 1] == held[j + 1]);
                            }
                        }
                    }
                }
            },
            None => {},
        }
        assert(are_mirrors(table, was.id, mirror@, steps));
        let tx: &mut TxMsg = &mut self.tx_list[i];
        tx.last_sent = data;
        tx.last_len = len;
        let f: CanFrame = CanFrame {
            t_us: at_us,
            channel: tx.channel,
            id: tx.id,
            extended: tx.extended,
            len,
            data,
            dir: Direction::Tx,
            flags,
        };
        self.buf.push(f);
        assert(self.tx_list@ =~= before.tx_list@.update(i as int, self.tx_list@[i as int]));
        assert(self.buf@.drop_last() =~= before.buf@);
        assert forall|j: int| 0 <= j < self.buf@.len() implies (#[trigger] self.buf@[j]).wf() by {
            if j < before.buf@.len() {
                assert(before.buf@[j].wf());
                assert(self.buf@.drop_last()[j] == self.buf@[j]);
            }
        }
        assert forall|j: int| 0 <= j < self.tx_list@.len() implies (
        #[trigger] self.tx_list@[j]).len <= 64 && self.tx_list@[j].last_len <= 64 by {
            assert(before.tx_list@[j].len <= 64);
        }
    }

    /// The action needs the recorder's file opened.
    pub open spec fn opens(self, action: TriggerAction) -> bool {
        action is StartRecording && self.measuring && !self.recorder.recording
    }

    /// Whether the action needs the recorder's file opened: then it is, and what
    /// came of it is handed to [`BusCore::run_action`].
    pub fn opens_recorder(&self, action: TriggerAction) -> (r: bool)
        ensures
            r == self.opens(action),
    {
        match action {
            TriggerAction::StartRecording => self.measuring && !self.recorder.recording,
            _ => false,
        }
    }

    /// One action of a rule that saw an edge. `opened` is what opening the
    /// recorder's file gave, where the action asks for it; `first` are the frames
    /// that the file begins with.
    pub open spec fn is_acted(
        self,
        after: BusCore,
        action: TriggerAction,
        at_us: u64,
        raws: Seq<Option<u64>>,
        mirror: Seq<(String, Option<u64>)>,
        opened: Result<String, String>,
        first: Seq<CanFrame>,
        status_before: Seq<char>,
        status: Seq<char>,
    ) -> bool {
        match action {
            TriggerAction::StartRecording => if self.opens(action) {
                match opened {
                    Ok(path) => {
                        &&& after.recorder.recording
                        &&& after.recorder.last_record == path
                        &&& after.recorder == (bus_types::Recorder {
                            recording: true,
                            last_record: after.recorder.last_record,
                            ..self.recorder
                        })
                        &&& after.post_roll is None
                        &&& after.pre_buffer@.len() == 0
                        &&& first == self.pre_buffer@
                        &&& status == "trigger started recording to "@ + path@
                        &&& after == (BusCore {
                            recorder: after.recorder,
                            post_roll: None,
                            pre_buffer: after.pre_buffer,
                            ..self
                        })
                    },
                    Err(e) => {
                        &&& after == self
                        &&& first.len() == 0
                        &&& status == "trigger record failed: "@ + e@
                    },
                }
            } else {
                after == self && first.len() == 0 && status == status_before
            },
            TriggerAction::StopRecording => {
                &&& first.len() == 0
                &&& if self.recorder.recording {
                    &&& after == (BusCore { post_roll: Some(self.post_frames), ..self })
                    &&& status == "trigger stopping after post-roll"@
                } else {
                    after == self && status == status_before
                }
            },
            TriggerAction::Send { ch, id } => {
                &&& first.len() == 0
                &&& self.is_sent(after, ch, id, at_us, raws, mirror)
                &&& status == status_before
            },
            TriggerAction::InsertMarker => {
                &&& first.len() == 0
                &&& after.markers@ == (if self.markers@.len() + 1 > self.marker_cap {
                    self.markers@.push(at_us).drop_first()
                } else {
                    self.markers@.push(at_us)
                })
                &&& after == (BusCore { markers: after.markers, ..self })
                &&& status == status_before
            },
            TriggerAction::ClearTrace => {
                &&& first.len() == 0
                &&& self.is_trace_cleared(
                    BusCore { triggers: self.triggers, ..after },
                )
                &&& after.triggers@ == rearmed_all(self.triggers@)
                &&& status == "trigger cleared the trace"@
            },
        }
    }

    /// The frames on display are gone; everything else keeps running.
    pub open spec fn is_trace_cleared(self, after: BusCore) -> bool {
        &&& after.trace@.len() == 0
        &&& after.trace.dropped == 0
        &&& after.fr_trace@.len() == 0
        &&& after.fr_trace.dropped == 0
        &&& after.published_trace@.len() == 0
        &&& after.published_fr@.len() == 0
        &&& after == (BusCore {
            trace: after.trace,
            fr_trace: after.fr_trace,
            published_trace: after.published_trace,
            published_fr: after.published_fr,
            ..self
        })
    }

    /// Blanks the trace and what was published of it.
    pub fn clear_trace(&mut self)
        requires
            old(self).wf(),
        ensures
            final(self).wf(),
            old(self).is_trace_cleared(*final(self)),
    {
        self.trace.clear();
        self.fr_trace.clear();
        self.publish_trace();
    }

    /// Performs one action of a rule that saw an edge at `at_us`. Returns the
    /// frames that a recording it starts begins with: those that came before.
    pub fn run_action(
        &mut self,
        action: TriggerAction,
        at_us: u64,
        raws: &Vec<Option<u64>>,
        mirror: &Vec<(String, Option<u64>)>,
        opened: Result<String, String>,
        status: &mut String,
    ) -> (first: Vec<CanFrame>)
        requires
            old(self).wf(),
            old(self).buf_fits(),
        ensures
            final(self).wf(),
            final(self).buf_fits(),
            old(self).is_acted(
                *final(self),
                action,
                at_us,
                raws@,
                mirror@,
                opened,
                first@,
                old(status)@,
                final(status)@,
            ),
    {
        let mut first: Vec<CanFrame> = Vec::new();
        match action {
            TriggerAction::StartRecording => {
                if self.measuring && !self.recorder.recording {
                    match opened {
                        Ok(path) => {
                            let mut line: String = "trigger started recording to ".to_owned();
                            line.append(path.as_str());
                            *status = line;
                            self.recorder.recording = true;
                            self.recorder.last_record = path;
                            self.post_roll = None;
                            while self.pre_buffer.len() > 0
                                invariant
                                    first@ + self.pre_buffer@ == old(self).pre_buffer@,
                                    *self == (BusCore {
                                        recorder: self.recorder,
                                        post_roll: None,
                                        pre_buffer: self.pre_buffer,
                                        ..*old(self)
                                    }),
                                    self.recorder == (bus_types::Recorder {
                                        recording: true,
                                        last_record: path,
                                        ..old(self).recorder
                                    }),
                                decreases self.pre_buffer@.len(),
                            {
                                let ghost rest = self.pre_buffer@;
                                let ghost done = first@;
                                match self.pre_buffer.pop_front() {
                                    Some(f) => {
                                        first.push(f);
                                    },
                                    None => {},
                                }
                                assert(first@ + self.pre_buffer@ =~= done + rest);
                            }
                            assert(first@ =~= old(self).pre_buffer@);
                        },
                        Err(e) => {
                            let mut line: String = "trigger record failed: ".to_owned();
                            line.append(e.as_str());
                            *status = line;
                        },
                    }
                }
            },
            TriggerAction::StopRecording => {
                if self.recorder.recording {
                    self.post_roll = Some(self.post_frames);
                    *status = "trigger stopping after post-roll".to_owned();
                }
            },
            TriggerAction::Send { ch, id } => {
                self.send_one_shot(ch, id, at_us, raws, mirror);
            },
            TriggerAction::InsertMarker => {
                self.markers.push(at_us);
                if self.markers.len() > self.marker_cap {
                    self.markers.remove(0);
                    assert(self.markers@ =~= old(self).markers@.push(at_us).drop_first());
                }
            },
            TriggerAction::ClearTrace => {
                let ghost before = *self;
                self.clear_trace();
                let ghost cleared = *self;
                rearm_all(&mut self.triggers);
                assert(before.is_trace_cleared(
                    BusCore { triggers: before.triggers, ..*self },
                )) by {
                    assert(cleared == (BusCore { triggers: before.triggers, ..*self }));
                }
                *status = "trigger cleared the trace".to_owned();
            },
        }
        first
    }

    /// The Write window with one more line, its oldest line dropped above the cap.
    pub open spec fn is_written(self, after: BusCore, line: WriteLine) -> bool {
        &&& after.write_log@ == (if self.write_log@.len() + 1 > WRITE_LOG_CAP {
            self.write_log@.push(line).drop_first()
        } else {
            self.write_log@.push(line)
        })
        &&& after.write_dirty
        &&& after == (BusCore { write_log: after.write_log, write_dirty: true, ..self })
    }

    /// Appends one line to the Write window.
    pub fn write_line(&mut self, line: WriteLine)
        requires
            old(self).wf(),
        ensures
            final(self).wf(),
            old(self).is_written(*final(self), line),
    {
        let ghost before = self.write_log@;
        self.write_log.push_back(line);
        if self.write_log.len() > WRITE_LOG_CAP {
            self.write_log.pop_front();
            assert(self.write_log@ =~= before.push(line).drop_first());
        }
        self.write_dirty = true;
    }

    /// Appends one line, stamped with the local time of day.
    pub fn write_push(&mut self, kind: WriteKind, line: String)
        requires
            old(self).wf(),
        ensures
            final(self).wf(),
            exists|w: WriteLine|
                #[trigger] old(self).is_written(*final(self), w) && w.kind == kind && w.text
                    == line,
    {
        let wall_us: u64 = wall_us_now();
        let w: WriteLine = WriteLine { wall_us, kind, text: line };
        self.write_line(w);
    }

    /// Mirrors a node's log line into the Write window under the node's name.
    pub fn write_node_line(&mut self, node_name: &str, line: &str)
        requires
            old(self).wf(),
        ensures
            final(self).wf(),
            exists|w: WriteLine|
                #[trigger] old(self).is_written(*final(self), w) && w.kind
                    == bus_types::line_kind(line@) && w.text@ == "["@ + node_name@ + "] "@ + line@,
    {
        let mut s: String = "[".to_owned();
        s.append(node_name);
        s.append("] ");
        s.append(line);
        self.write_push(kind_of_line(line), s);
    }

    /// A system variable is written, held in its bounds, and its value published, if it is
    /// defined.
    pub open spec fn is_var_written(
        self,
        after: BusCore,
        key: Seq<char>,
        value: Double,
    ) -> bool {
        let i = bus_types::var_index(self.sysvars@, key, 0);
        if i < 0 {
            after == self
        } else {
            let was = self.sysvars@[i];
            let now = bus_types::held(was.def, value);
            let stream = observers::stream_key(0, SYSVAR_STREAM_ID, was.def.name@);
            &&& after.sysvars@ == self.sysvars@.update(i, SysVar { value: now, ..was })
            &&& after.obs@ == self.obs@.emitted(
                stream,
                was.def.namespace@,
                meta_by(self.channels@, stream),
                now.bits,
                now.whole,
                self.sim_t_us,
                self.applied_stride_us,
            )
            &&& after.nodes_dirty == (self.nodes_dirty || (!observers::has_stream(
                self.obs@.streams,
                stream,
            ) && !self.obs@.is_full(stream)))
            &&& after == (BusCore {
                sysvars: after.sysvars,
                obs: after.obs,
                nodes_dirty: after.nodes_dirty,
                ..self
            })
        }
    }

    /// Stores one system variable's value, held in the variable's bounds, and publishes
    /// it to the observers. Returns false when no such variable is defined.
    pub fn sysvar_write(&mut self, key: &str, value: Double) -> (r: bool)
        requires
            old(self).wf(),
        ensures
            final(self).wf(),
            old(self).is_var_written(*final(self), key@, value),
            r == (bus_types::var_index(old(self).sysvars@, key@, 0) >= 0),
    {
        let i: usize = match find_var(&self.sysvars, key) {
            Some(i) => i,
            None => {
                return false;
            },
        };
        let ghost before = *self;
        let now: Double = self.sysvars[i].def.clamp(value);
        let v: &mut SysVar = &mut self.sysvars[i];
        v.value = now;
        assert(self.sysvars@ =~= before.sysvars@.update(
            i as int,
            SysVar { value: now, ..before.sysvars@[i as int] },
        ));
        let new: bool = publish_var(
            &mut self.obs,
            &self.channels,
            self.sysvars[i].def.namespace.as_str(),
            self.sysvars[i].def.name.as_str(),
            now,
            self.sim_t_us,
            self.applied_stride_us,
        );
        if new {
            self.nodes_dirty = true;
        }
        true
    }

    /// A script's derived value is folded into its stream.
    pub fn ingest_emitted(
        &mut self,
        ch: u8,
        node_id: u64,
        node_name: &str,
        name: &str,
        value: Double,
    )
        requires
            old(self).wf(),
        ensures
            final(self).wf(),
            ({
                let key = observers::stream_key(ch, node_id, name@);
                &&& final(self).obs@ == old(self).obs@.emitted(
                    key,
                    node_name@,
                    meta_by(old(self).channels@, key),
                    value.bits,
                    value.whole,
                    old(self).sim_t_us,
                    old(self).applied_stride_us,
                )
                &&& final(self).nodes_dirty == (old(self).nodes_dirty || (
                !observers::has_stream(old(self).obs@.streams, key) && !old(self).obs@.is_full(
                    key,
                )))
            }),
            *final(self) == (BusCore {
                obs: final(self).obs,
                nodes_dirty: final(self).nodes_dirty,
                ..*old(self)
            }),
    {
        let key: SigKey = SigKey {
            ch,
            id: observers::stream_id_of(node_id),
            ext: false,
            signal: name.to_owned(),
        };
        let meta: String = signal_meta(&self.channels, &key);
        assert(key@ == observers::stream_key(ch, node_id, name@));
        let new: bool = self.obs.emit(
            key,
            node_name,
            meta,
            value.bits,
            value.whole,
            self.sim_t_us,
            self.applied_stride_us,
        );
        if new {
            self.nodes_dirty = true;
        }
    }
}

proof fn lemma_var_index(vars: Seq<SysVar>, key: Seq<char>, from: int)
    requires
        0 <= from,
    ensures
        bus_types::var_index(vars, key, from) < vars.len(),
    decreases vars.len() - from,
{
    if from < vars.len() {
        lemma_var_index(vars, key, from + 1);
    }
}

/// Whatever is written to a variable, by a command or by a script, the variable then lies
/// in its bounds; a value that lies there is stored as it came.
pub proof fn law_a_written_variable_lies_in_its_bounds(
    before: BusCore,
    after: BusCore,
    key: Seq<char>,
    value: Double,
)
    requires
        before.is_var_written(after, key, value),
        bus_types::var_index(before.sysvars@, key, 0) >= 0,
        bus_types::bounds_agree(
            before.sysvars@[bus_types::var_index(before.sysvars@, key, 0)].def,
        ),
    ensures
        ({
            let i = bus_types::var_index(before.sysvars@, key, 0);
            let now = after.sysvars@[i];
            &&& now.def == before.sysvars@[i].def
            &&& bus_types::in_bounds(now.def, now.value)
            &&& bus_types::in_bounds(now.def, value) ==> now.value == value
        }),
{
    lemma_var_index(before.sysvars@, key, 0);
    let i = bus_types::var_index(before.sysvars@, key, 0);
    bus_types::law_held_values_lie_in_their_bounds(before.sysvars@[i].def, value);
}

/// Every rule re-armed.
pub open spec fn rearmed_all(rules: Seq<Trigger>) -> Seq<Trigger> {
    Seq::new(rules.len(), |i: int| rules[i].rearmed())
}

fn rearm_all(rules: &mut Vec<Trigger>)
    ensures
        final(rules)@ == rearmed_all(old(rules)@),
{
    let total: usize = rules.len();
    for i in 0..total
        invariant
            total == old(rules)@.len(),
            rules@.len() == total,
            forall|k: int| 0 <= k < i ==> rules@[k] == rearmed_all(old(rules)@)[k],
            forall|k: int| i <= k < total ==> rules@[k] == old(rules)@[k],
    {
        let t: &mut Trigger = &mut rules[i];
        t.rearm();
    }
    assert(rules@ =~= rearmed_all(old(rules)@));
}

/// A rule that watches for an id or an error frame fires at most once until it is
/// re-armed: a frame cannot make it see a second edge.
pub proof fn law_appearance_latches(t: Trigger, f: CanFrame, channels: Seq<Channel>, crossed: bool)
    requires
        t.cond.latches(),
        t.level,
    ensures
        frame_level(t, f, channels, crossed) matches Some(l) ==> t.judged(l, f.t_us) == t,
{
}

/// A frame of another bus moves no rule's level.
pub proof fn law_rules_mind_their_own_bus(
    t: Trigger,
    f: CanFrame,
    channels: Seq<Channel>,
    crossed: bool,
)
    requires
        t.cond.bus_spec() != Some(f.channel),
    ensures
        frame_level(t, f, channels, crossed) is None,
{
}

} // verus!
