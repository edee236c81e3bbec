//! Starting, stopping and stepping the clocks of a run, offline scans, and the
//! replay blocks.

use std::collections::VecDeque;
use vstd::prelude::*;
use vstd::string::*;
use crate::aggregate;
use crate::aggregate::MessageAgg;
use crate::app::Mode;
use crate::block;
use crate::block::ReplayBlock;
use crate::bus;
use crate::bus::{is_gate_open, BusCore, BusLoad, MAX_SCAN_FRAMES};
use crate::bus_ingest;
use crate::bus_ingest::{decode_on, publish_vars};
use crate::bus_types;
use crate::bus_types::{keys_of_vars, Double, Recorder, ScriptNode, SysVar};
use crate::can::frame::CanFrame;
use crate::channel;
use crate::channel::Channel;
use crate::dbc::{DecodedSignal, SymbolTable};
use crate::generator::TxMsg;
use crate::monitor;
use crate::monitor::Monitor;
use crate::observe;
use crate::observe::{SigKey, Subscription};
use crate::observers;
use crate::observers::{KeyState, Reading, SubState};
use crate::table;
use crate::text;
use crate::trace;

verus! {

/// What a command asks of the outside.
pub enum BusAction {
    /// Close the recording file.
    CloseRecorder,
    /// Run on the idle virtual bus.
    VirtualSource,
    /// Run on the log that was opened.
    ReplaySource,
    /// Play the log at another speed: the bit pattern of its factor.
    SetSpeed(u64),
    /// Compile and start a script node.
    StartNode(u64),
    /// Stop a script node.
    StopNode(u64),
    /// Let the script nodes of a bus look up their signals anew.
    RefreshNodes(u8),
}

/// The blocks rewound to the run start.
pub open spec fn rewound_blocks(blocks: Seq<ReplayBlock>) -> Seq<ReplayBlock> {
    Seq::new(blocks.len(), |i: int| ReplayBlock { cursor: 0, anchor_us: 0, ..blocks[i] })
}

/// The entries with their schedules at the run start.
pub open spec fn rescheduled(list: Seq<TxMsg>) -> Seq<TxMsg> {
    Seq::new(list.len(), |i: int| TxMsg { next_t_us: 0, ..list[i] })
}

/// The system variables at their declared values.
pub open spec fn initial_vars(vars: Seq<SysVar>) -> Seq<SysVar> {
    Seq::new(vars.len(), |i: int| SysVar { value: vars[i].def.init, ..vars[i] })
}

fn rewind_blocks(blocks: &mut Vec<ReplayBlock>)
    requires
        forall|i: int| 0 <= i < old(blocks)@.len() ==> (#[trigger] old(blocks)@[i]).wf(),
    ensures
        final(blocks)@ == rewound_blocks(old(blocks)@),
        forall|i: int| 0 <= i < final(blocks)@.len() ==> (#[trigger] final(blocks)@[i]).wf(),
{
    let total: usize = blocks.len();
    for i in 0..total
        invariant
            total == old(blocks)@.len(),
            blocks@.len() == total,
            forall|k: int| 0 <= k < total ==> (#[trigger] blocks@[k]).wf(),
            forall|k: int| 0 <= k < i ==> blocks@[k] == rewound_blocks(old(blocks)@)[k],
            forall|k: int| i <= k < total ==> blocks@[k] == old(blocks)@[k],
    {
        let b: &mut ReplayBlock = &mut blocks[i];
        b.rewind();
    }
    assert(blocks@ =~= rewound_blocks(old(blocks)@));
}

fn reschedule(list: &mut Vec<TxMsg>)
    requires
        bus::entries_fit(old(list)@),
    ensures
        bus::entries_fit(final(list)@),
        final(list)@ == rescheduled(old(list)@),
{
    let total: usize = list.len();
    for i in 0..total
        invariant
            total == old(list)@.len(),
            list@.len() == total,
            forall|k: int| 0 <= k < i ==> list@[k] == rescheduled(old(list)@)[k],
            forall|k: int| i <= k < total ==> list@[k] == old(list)@[k],
    {
        let t: &mut TxMsg = &mut list[i];
        t.next_t_us = 0;
    }
    assert(list@ =~= rescheduled(old(list)@));
    assert forall|i: int| 0 <= i < list@.len() implies (#[trigger] list@[i]).len <= 64
        && list@[i].last_len <= 64 by {
        assert(old(list)@[i].len <= 64);
    }
}

fn initialize(vars: &mut Vec<SysVar>)
    ensures
        final(vars)@ == initial_vars(old(vars)@),
{
    let total: usize = vars.len();
    for i in 0..total
        invariant
            total == old(vars)@.len(),
            vars@.len() == total,
            forall|k: int| 0 <= k < i ==> vars@[k] == initial_vars(old(vars)@)[k],
            forall|k: int| i <= k < total ==> vars@[k] == old(vars)@[k],
    {
        let init: Double = vars[i].def.init;
        let v: &mut SysVar = &mut vars[i];
        v.value = init;
    }
    assert(vars@ =~= initial_vars(old(vars)@));
}

/// The loads hold nothing.
pub open spec fn loads_blank(loads: Seq<BusLoad>) -> bool {
    forall|i: int| 0 <= i < loads.len() ==> (#[trigger] loads[i]).notes@.len() == 0
}

fn clear_loads(loads: &mut Vec<BusLoad>)
    ensures
        final(loads)@.len() == old(loads)@.len(),
        loads_blank(final(loads)@),
{
    let total: usize = loads.len();
    for i in 0..total
        invariant
            total == old(loads)@.len(),
            loads@.len() == total,
            forall|k: int| 0 <= k < i ==> (#[trigger] loads@[k]).notes@.len() == 0,
    {
        let l: &mut BusLoad = &mut loads[i];
        l.notes = Vec::new();
    }
}

/// The script nodes as a measurement arms them: every enabled one knows the
/// defined system variables.
pub open spec fn are_armed(before: Seq<ScriptNode>, after: Seq<ScriptNode>, keys: Seq<Seq<char>>) -> bool {
    &&& after.len() == before.len()
    &&& forall|i: int|
        0 <= i < before.len() ==> {
            let n = #[trigger] after[i];
            if before[i].enabled {
                &&& text::views(n.sysvar_keys@) == keys
                &&& n == (ScriptNode { sysvar_keys: n.sysvar_keys, ..before[i] })
            } else {
                n == before[i]
            }
        }
}

/// The starts of the enabled nodes among the first `n`.
pub open spec fn node_starts(nodes: Seq<ScriptNode>, n: int) -> Seq<BusAction>
    decreases n,
{
    if n <= 0 {
        Seq::empty()
    } else {
        let before = node_starts(nodes, n - 1);
        if nodes[n - 1].enabled {
            before.push(BusAction::StartNode(nodes[n - 1].id))
        } else {
            before
        }
    }
}

fn arm_nodes(nodes: &mut Vec<ScriptNode>, vars: &Vec<SysVar>, actions: &mut Vec<BusAction>)
    ensures
        are_armed(old(nodes)@, final(nodes)@, bus_types::var_keys(vars@)),
        final(actions)@ == old(actions)@ + node_starts(
            old(nodes)@,
            old(nodes)@.len() as int,
        ),
{
    let total: usize = nodes.len();
    assert(actions@ =~= actions@ + Seq::<BusAction>::empty());
    for i in 0..total
        invariant
            total == old(nodes)@.len(),
            nodes@.len() == total,
            actions@ == old(actions)@ + node_starts(old(nodes)@, i as int),
            forall|k: int|
                0 <= k < i ==> {
                    let n = #[trigger] nodes@[k];
                    if old(nodes)@[k].enabled {
                        &&& text::views(n.sysvar_keys@) == bus_types::var_keys(vars@)
                        &&& n == (ScriptNode { sysvar_keys: n.sysvar_keys, ..old(nodes)@[k] })
                    } else {
                        n == old(nodes)@[k]
                    }
                },
            forall|k: int| i <= k < total ==> nodes@[k] == old(nodes)@[k],
    {
        if nodes[i].enabled {
            let keys: Vec<String> = keys_of_vars(vars);
            let id: u64 = nodes[i].id;
            let n: &mut ScriptNode = &mut nodes[i];
            n.sysvar_keys = keys;
            let ghost before = actions@;
            actions.push(BusAction::StartNode(id));
            assert(actions@ =~= old(actions)@ + node_starts(old(nodes)@, i as int).push(
                BusAction::StartNode(id),
            ));
        }
    }
}

/// A log that was read of a block: its frames in the order they were recorded,
/// or why it could not be read.
pub type LogRead = Result<Vec<CanFrame>, String>;

/// The blocks after the enabled ones are loaded from their logs.
pub open spec fn are_reloaded(
    before: Seq<ReplayBlock>,
    after: Seq<ReplayBlock>,
    channels: Seq<Channel>,
    logs: Seq<LogRead>,
    sim_t_us: u64,
) -> bool {
    &&& after.len() == before.len()
    &&& forall|i: int|
        0 <= i < before.len() ==> if before[i].enabled {
            before[i].is_reloaded(
                #[trigger] after[i],
                channel::table_on(channels, before[i].channel),
                logs[i],
                sim_t_us,
            )
        } else {
            after[i] == before[i]
        }
}

/// What a load of an enabled block's log keeps starts with its earliest frame.
pub open spec fn logs_fit(
    blocks: Seq<ReplayBlock>,
    channels: Seq<Channel>,
    logs: Seq<LogRead>,
) -> bool {
    &&& logs.len() == blocks.len()
    &&& forall|i: int|
        0 <= i < blocks.len() && (#[trigger] blocks[i]).enabled ==> log_fits(
            blocks[i],
            channel::table_on(channels, blocks[i].channel),
            logs[i],
        )
}

/// What the load keeps starts with its earliest frame, and every payload fits.
pub open spec fn log_fits(b: ReplayBlock, table: Option<SymbolTable>, log: LogRead) -> bool {
    b.load_result(table, log) matches Ok(frames) ==> block::is_queueable(frames)
}

/// What the loads of the first `n` blocks report.
pub open spec fn load_notes(
    before: Seq<ReplayBlock>,
    after: Seq<ReplayBlock>,
    n: int,
) -> Seq<Seq<char>>
    decreases n,
{
    if n <= 0 {
        Seq::empty()
    } else {
        let notes = load_notes(before, after, n - 1);
        if before[n - 1].enabled && after[n - 1].last_error is Some {
            notes.push("`"@ + after[n - 1].name@ + "`: "@ + (after[n - 1].last_error->0)@)
        } else {
            notes
        }
    }
}

fn block_note(name: &str, e: &str) -> (r: String)
    ensures
        r@ == "`"@ + name@ + "`: "@ + e@,
{
    let mut s: String = "`".to_owned();
    s.append(name);
    s.append("`: ");
    s.append(e);
    s
}

/// Loads every enabled block's queue from what was read of its log, and returns
/// what the loads report.
pub fn load_blocks(
    blocks: &mut Vec<ReplayBlock>,
    channels: &Vec<Channel>,
    logs: Vec<LogRead>,
    sim_t_us: u64,
) -> (notes: Vec<String>)
    requires
        logs_fit(old(blocks)@, channels@, logs@),
        forall|i: int| 0 <= i < old(blocks)@.len() ==> (#[trigger] old(blocks)@[i]).wf(),
    ensures
        are_reloaded(old(blocks)@, final(blocks)@, channels@, logs@, sim_t_us),
        text::views(notes@) == load_notes(
            old(blocks)@,
            final(blocks)@,
            old(blocks)@.len() as int,
        ),
        forall|i: int| 0 <= i < final(blocks)@.len() ==> (#[trigger] final(blocks)@[i]).wf(),
{
    let mut notes: Vec<String> = Vec::new();
    let ghost all = logs@;
    let total: usize = logs.len();
    let mut i: usize = 0;
    assert(text::views(notes@) =~= Seq::<Seq<char>>::empty());
    for log in it: logs
        invariant
            it.seq() == all,
            all.len() == old(blocks)@.len(),
            total == all.len(),
            i == it.index(),
            logs_fit(old(blocks)@, channels@, all),
            blocks@.len() == old(blocks)@.len(),
            forall|k: int| 0 <= k < blocks@.len() ==> (#[trigger] blocks@[k]).wf(),
            forall|k: int|
                0 <= k < i ==> if old(blocks)@[k].enabled {
                    old(blocks)@[k].is_reloaded(
                        #[trigger] blocks@[k],
                        channel::table_on(channels@, old(blocks)@[k].channel),
                        all[k],
                        sim_t_us,
                    )
                } else {
                    blocks@[k] == old(blocks)@[k]
                },
            forall|k: int| i <= k < blocks@.len() ==> blocks@[k] == old(blocks)@[k],
            text::views(notes@) == load_notes(old(blocks)@, blocks@, i as int),
    {
        let ghost before = blocks@;
        let ghost held = notes@;
        assert(log == all[i as int]);
        assert(blocks@[i as int] == old(blocks)@[i as int]);
        if blocks[i].enabled {
            let table: Option<&SymbolTable> = channel::channel_dbc(channels, blocks[i].channel);
            assert(block::read_table(table) == channel::table_on(
                channels@,
                old(blocks)@[i as int].channel,
            ));
            assert(log_fits(
                old(blocks)@[i as int],
                channel::table_on(channels@, old(blocks)@[i as int].channel),
                log,
            ));
            let b: &mut ReplayBlock = &mut blocks[i];
            b.load_queue(table, log, sim_t_us);
            match &blocks[i].last_error {
                Some(e) => {
                    let note: String = block_note(blocks[i].name.as_str(), e.as_str());
                    notes.push(note);
                    assert(text::views(notes@) =~= text::views(held).push(note@));
                },
                None => {},
            }
        }
        proof {
            lemma_notes_prefix(old(blocks)@, before, blocks@, i as int);
        }
        i = i + 1;
    }
    notes
}

proof fn lemma_notes_prefix(
    before: Seq<ReplayBlock>,
    a: Seq<ReplayBlock>,
    b: Seq<ReplayBlock>,
    n: int,
)
    requires
        n <= a.len(),
        n <= b.len(),
        forall|k: int| 0 <= k < n ==> a[k] == b[k],
    ensures
        load_notes(before, a, n) == load_notes(before, b, n),
    decreases n,
{
    if n > 0 {
        lemma_notes_prefix(before, a, b, n - 1);
    }
}

/// The status line of a fresh virtual run.
pub open spec fn virtual_status(notes: Seq<Seq<char>>) -> Seq<char> {
    if notes.len() == 0 {
        "measuring (virtual)"@
    } else {
        "measuring (virtual); replay block "@ + text::joined(notes, "; "@)
    }
}

fn virtual_line(notes: &Vec<String>) -> (s: String)
    ensures
        s@ == virtual_status(text::views(notes@)),
{
    if notes.len() == 0 {
        "measuring (virtual)".to_owned()
    } else {
        let mut s: String = "measuring (virtual); replay block ".to_owned();
        let list: String = text::join(notes, "; ");
        s.append(list.as_str());
        s
    }
}

/// How opening the recorder's file is reported.
pub open spec fn record_status(opened: Result<String, String>) -> Seq<char> {
    match opened {
        Ok(path) => "recording to "@ + path@,
        Err(e) => "record failed: "@ + e@,
    }
}

fn record_line(opened: &Result<String, String>) -> (s: String)
    ensures
        s@ == record_status(*opened),
{
    match opened {
        Ok(path) => {
            let mut s: String = "recording to ".to_owned();
            s.append(path.as_str());
            s
        },
        Err(e) => {
            let mut s: String = "record failed: ".to_owned();
            s.append(e.as_str());
            s
        },
    }
}

/// A log that was opened for replay: what it says of itself, and the messages it
/// carries.
pub struct OpenedLog {
    pub info: String,
    pub ids: Vec<(u8, u32)>,
}

/// The status line of a started replay.
pub open spec fn replay_status(info: Seq<char>, speed: Seq<char>) -> Seq<char> {
    if info.len() == 0 {
        "replaying"@ + " at "@ + speed + "x"@
    } else {
        "replaying"@ + " ["@ + info + "]"@ + " at "@ + speed + "x"@
    }
}

fn replay_line(info: &str, speed: &str) -> (s: String)
    ensures
        s@ == replay_status(info@, speed@),
{
    let mut s: String = "replaying".to_owned();
    if !text::same_text(info, "") {
        proof {
            reveal_strlit("");
            if info@.len() == 0 {
                assert(info@ =~= ""@);
            }
        }
        s.append(" [");
        s.append(info);
        s.append("]");
    } else {
        proof {
            reveal_strlit("");
        }
    }
    s.append(" at ");
    s.append(speed);
    s.append("x");
    s
}

fn replay_failed(path: &str, e: &str) -> (s: String)
    ensures
        s@ == "replay failed ["@ + path@ + "]: "@ + e@,
{
    let mut s: String = "replay failed [".to_owned();
    s.append(path);
    s.append("]: ");
    s.append(e);
    s
}

fn resumed_line(speed: &str) -> (s: String)
    ensures
        s@ == "resumed at "@ + speed@ + "x"@,
{
    let mut s: String = "resumed at ".to_owned();
    s.append(speed);
    s.append("x");
    s
}

/// One frame is folded in, whatever interval it closes.
pub open spec fn takes_in(a: BusCore, b: BusCore, f: CanFrame, stride: u64) -> bool {
    exists|r: Option<aggregate::Interval>| #[trigger] a.is_ingested(b, f, stride, r)
}

/// `steps` are the states as the frames are folded in one after the other.
pub open spec fn are_ingests(
    start: BusCore,
    frames: Seq<CanFrame>,
    stride: u64,
    steps: Seq<BusCore>,
) -> bool {
    &&& steps.len() == frames.len() + 1
    &&& steps[0] == start
    &&& forall|k: int|
        #![trigger frames[k]]
        0 <= k < frames.len() ==> takes_in(steps[k], steps[k + 1], frames[k], stride)
}

/// The core after the frames were folded in.
pub open spec fn all_ingested(
    start: BusCore,
    after: BusCore,
    frames: Seq<CanFrame>,
    stride: u64,
) -> bool {
    exists|steps: Seq<BusCore>|
        #[trigger] are_ingests(start, frames, stride, steps) && after == steps.last()
}

/// The frames fit their payloads.
pub open spec fn frames_fit(frames: Seq<CanFrame>) -> bool {
    forall|i: int| 0 <= i < frames.len() ==> (#[trigger] frames[i]).wf()
}

/// The latest stamp among the first `n` tallies.
pub open spec fn latest_stamp(items: Seq<(u64, MessageAgg)>, n: int) -> u64
    decreases n,
{
    if n <= 0 {
        0
    } else {
        let before = latest_stamp(items, n - 1);
        if items[n - 1].1.last_t_us > before {
            items[n - 1].1.last_t_us
        } else {
            before
        }
    }
}

fn scanned_line(n: u64) -> (s: String)
    ensures
        s@ == "scan complete: "@ + text::decimal(n as int) + " frame(s) ingested for browsing"@,
{
    let mut s: String = "scan complete: ".to_owned();
    text::push_u64(&mut s, n);
    s.append(" frame(s) ingested for browsing");
    s
}

/// What the frames among the first `n` read of a signal, in order.
pub open spec fn readings(
    channels: Seq<Channel>,
    key: KeyState,
    frames: Seq<CanFrame>,
    n: int,
) -> Seq<(u64, Reading)>
    decreases n,
{
    if n <= 0 {
        Seq::empty()
    } else {
        let before = readings(channels, key, frames, n - 1);
        let f = frames[n - 1];
        if f.channel == key.ch && f.id == key.id && f.extended == key.ext {
            let d = bus_ingest::decoded_on(channels, f);
            before + named_readings(d, key.signal, f.t_us, d.len() as int)
        } else {
            before
        }
    }
}

/// What the first `n` decoded signals of a frame read of the one with the name.
pub open spec fn named_readings(
    decoded: Seq<DecodedSignal>,
    name: Seq<char>,
    t_us: u64,
    n: int,
) -> Seq<(u64, Reading)>
    decreases n,
{
    if n <= 0 {
        Seq::empty()
    } else {
        let before = named_readings(decoded, name, t_us, n - 1);
        if decoded[n - 1].name@ == name {
            before.push((t_us, observers::reading_of(decoded[n - 1])))
        } else {
            before
        }
    }
}

/// The points among the first `n` that lie a stride or more behind the last one
/// taken.
pub open spec fn thinned(points: Seq<(u64, Reading)>, stride: u64, n: int) -> Seq<(u64, Reading)>
    decreases n,
{
    if n <= 0 {
        Seq::empty()
    } else {
        let before = thinned(points, stride, n - 1);
        if before.len() > 0 && points[n - 1].0 < before.last().0 + stride {
            before
        } else {
            before.push(points[n - 1])
        }
    }
}

/// A subscription after a backfill.
pub open spec fn backfilled(
    s: SubState,
    channels: Seq<Channel>,
    frames: Seq<CanFrame>,
    stride: u64,
) -> SubState {
    let all = readings(channels, s.key, frames, frames.len() as int);
    let points = thinned(all, stride, all.len() as int);
    SubState {
        history: observe::merged(s.history, points, stride),
        n: trace::counted(s.n, observe::taken(s.history, points, stride).len() as int) as u64,
        pending: s.pending + observe::taken(s.history, points, stride),
        ..s
    }
}

fn read_signal(channels: &Vec<Channel>, key: &SigKey, frames: &Vec<CanFrame>) -> (r: Vec<
    (u64, Reading),
>)
    requires
        frames_fit(frames@),
    ensures
        r@ == readings(channels@, key@, frames@, frames@.len() as int),
{
    let mut r: Vec<(u64, Reading)> = Vec::new();
    let total: usize = frames.len();
    for i in 0..total
        invariant
            total == frames@.len(),
            frames_fit(frames@),
            r@ == readings(channels@, key@, frames@, i as int),
    {
        let f: CanFrame = frames[i];
        assert(frames@[i as int].wf());
        if f.channel == key.ch && f.id == key.id && f.extended == key.ext {
            let decoded: Vec<DecodedSignal> = decode_on(channels, &f);
            let ghost before = r@;
            assert(r@ =~= before + named_readings(decoded@, key.signal@, f.t_us, 0));
            for k in 0..decoded.len()
                invariant
                    r@ == before + named_readings(decoded@, key.signal@, f.t_us, k as int),
            {
                let d: &DecodedSignal = &decoded[k];
                if text::same_text(d.name.as_str(), key.signal.as_str()) {
                    let p: (u64, Reading) = (
                        f.t_us,
                        Reading::Decoded { value: d.value, factor: d.factor, offset: d.offset },
                    );
                    let ghost so_far = named_readings(decoded@, key.signal@, f.t_us, k as int);
                    r.push(p);
                    assert(r@ =~= before + so_far.push(p));
                }
            }
        }
    }
    r
}

fn thin(points: &Vec<(u64, Reading)>, stride: u64) -> (r: Vec<(u64, Reading)>)
    ensures
        r@ == thinned(points@, stride, points@.len() as int),
{
    let mut r: Vec<(u64, Reading)> = Vec::new();
    for i in 0..points.len()
        invariant
            r@ == thinned(points@, stride, i as int),
    {
        let p: (u64, Reading) = points[i];
        let skip: bool = if r.len() > 0 {
            match r[r.len() - 1].0.checked_add(stride) {
                Some(due) => p.0 < due,
                None => true,
            }
        } else {
            false
        };
        if !skip {
            r.push(p);
        }
    }
    r
}

/// The span that is covered once another was scanned.
pub open spec fn covered(cover: Option<(u64, u64)>, from: u64, to: u64) -> Option<(u64, u64)> {
    match cover {
        Some(c) => if from <= c.1 && to >= c.0 {
            Some(
                (
                    if c.0 <= from {
                        c.0
                    } else {
                        from
                    },
                    if c.1 >= to {
                        c.1
                    } else {
                        to
                    },
                ),
            )
        } else {
            Some((from, to))
        },
        None => Some((from, to)),
    }
}

fn cover_span(cover: Option<(u64, u64)>, from: u64, to: u64) -> (r: Option<(u64, u64)>)
    ensures
        r == covered(cover, from, to),
{
    match cover {
        Some(c) => if from <= c.1 && to >= c.0 {
            Some(
                (
                    if c.0 <= from {
                        c.0
                    } else {
                        from
                    },
                    if c.1 >= to {
                        c.1
                    } else {
                        to
                    },
                ),
            )
        } else {
            Some((from, to))
        },
        None => Some((from, to)),
    }
}

/// The frames among the first `n` whose times lie from `from` up to and with `to`.
pub open spec fn in_span(frames: Seq<CanFrame>, from: u64, to: u64, n: int) -> Seq<CanFrame>
    decreases n,
{
    if n <= 0 {
        Seq::empty()
    } else {
        let before = in_span(frames, from, to, n - 1);
        if from <= frames[n - 1].t_us <= to {
            before.push(frames[n - 1])
        } else {
            before
        }
    }
}

/// As many of the frames as one scan takes in.
pub open spec fn scanned(frames: Seq<CanFrame>) -> Seq<CanFrame> {
    if frames.len() <= MAX_SCAN_FRAMES {
        frames
    } else {
        frames.subrange(0, MAX_SCAN_FRAMES as int)
    }
}

/// What a scan of a log gives of a span: its frames in the order of the log, and whether
/// there were more than one scan takes in.
pub fn span_of(frames: &Vec<CanFrame>, from: u64, to: u64) -> (r: (Vec<CanFrame>, bool))
    ensures
        r.0@ == scanned(in_span(frames@, from, to, frames@.len() as int)),
        r.1 == (in_span(frames@, from, to, frames@.len() as int).len() > MAX_SCAN_FRAMES),
        frames_fit(frames@) ==> frames_fit(r.0@),
{
    let mut out: Vec<CanFrame> = Vec::new();
    let mut capped: bool = false;
    for i in 0..frames.len()
        invariant
            out@ == scanned(in_span(frames@, from, to, i as int)),
            capped == (in_span(frames@, from, to, i as int).len() > MAX_SCAN_FRAMES),
            frames_fit(frames@) ==> frames_fit(out@),
    {
        let f: CanFrame = frames[i];
        let ghost before = in_span(frames@, from, to, i as int);
        if from <= f.t_us && f.t_us <= to {
            if out.len() < MAX_SCAN_FRAMES {
                out.push(f);
            } else {
                capped = true;
                assert(before.push(f).subrange(0, MAX_SCAN_FRAMES as int) =~= before.subrange(
                    0,
                    MAX_SCAN_FRAMES as int,
                ));
                assert(before.subrange(0, before.len() as int) =~= before);
            }
        }
    }
    (out, capped)
}

fn dense_line() -> (s: String)
    ensures
        s@ == "plot: window too dense to decode fully ("@ + text::decimal(MAX_SCAN_FRAMES as int)
            + ")"@,
{
    let mut s: String = "plot: window too dense to decode fully (".to_owned();
    text::push_u64(&mut s, MAX_SCAN_FRAMES as u64);
    s.append(")");
    s
}

/// The smaller of two optional times.
pub open spec fn sooner(a: Option<u64>, b: Option<u64>) -> Option<u64> {
    match (a, b) {
        (Some(x), Some(y)) => if x <= y {
            Some(x)
        } else {
            Some(y)
        },
        (Some(x), None) => Some(x),
        (None, _) => b,
    }
}

fn soonest_of(a: Option<u64>, b: Option<u64>) -> (r: Option<u64>)
    ensures
        r == sooner(a, b),
{
    match (a, b) {
        (Some(x), Some(y)) => if x <= y {
            Some(x)
        } else {
            Some(y)
        },
        (Some(x), None) => Some(x),
        (None, _) => b,
    }
}

/// The earliest of the first `n` times.
pub open spec fn soonest(times: Seq<u64>, n: int) -> Option<u64>
    decreases n,
{
    if n <= 0 {
        None
    } else {
        sooner(soonest(times, n - 1), Some(times[n - 1]))
    }
}

/// The entry is on a timer: it is switched on, periodic, and its gate is open.
pub open spec fn is_due_by_timer(channels: Seq<Channel>, t: TxMsg) -> bool {
    t.active && t.cycle_us != 0 && bus::gate_open(channels, t)
}

/// The next slot of the entries among the first `n` that are on a timer.
pub open spec fn next_slot(channels: Seq<Channel>, list: Seq<TxMsg>, n: int) -> Option<u64>
    decreases n,
{
    if n <= 0 {
        None
    } else {
        let before = next_slot(channels, list, n - 1);
        if is_due_by_timer(channels, list[n - 1]) {
            sooner(before, Some(list[n - 1].next_t_us))
        } else {
            before
        }
    }
}

/// A time that much later, at most the largest.
pub open spec fn later(t: u64, by: int) -> u64 {
    if t + by <= u64::MAX {
        (t + by) as u64
    } else {
        u64::MAX
    }
}

/// How far one time lies behind another; nothing where it lies before.
pub open spec fn ahead(a: u64, b: u64) -> int {
    if a > b {
        a - b
    } else {
        0
    }
}

/// Moves a time on, at most to the largest.
pub fn saturating_later(t: u64, by: u64) -> (r: u64)
    ensures
        r == later(t, by as int),
{
    match t.checked_add(by) {
        Some(x) => x,
        None => u64::MAX,
    }
}

fn gap(a: u64, b: u64) -> (r: u64)
    ensures
        r == ahead(a, b),
{
    if a > b {
        a - b
    } else {
        0
    }
}

impl BusCore {
    /// The core at the start of a run: every counter of the run is blank, every
    /// schedule is at its start, and the system variables hold and publish their
    /// declared values.
    pub open spec fn is_run_reset(self, after: BusCore) -> bool {
        let vars = initial_vars(self.sysvars@);
        &&& after.sim_t_us == 0
        &&& after.sim_prev_us == 0
        &&& after.replay_blocks@ == rewound_blocks(self.replay_blocks@)
        &&& !after.trace_paused
        &&& after.paused_at_us is None
        &&& !after.scan_done
        &&& after.trace@.len() == 0
        &&& after.trace.dropped == 0
        &&& after.fr_trace@.len() == 0
        &&& after.fr_trace.dropped == 0
        &&& after.published_trace@.len() == 0
        &&& after.published_fr@.len() == 0
        &&& after.frame_counter == 0
        &&& after.aggs.items@.len() == 0
        &&& after.fr_aggs.items@.len() == 0
        &&& after.bus_loads@.len() == self.bus_loads@.len()
        &&& loads_blank(after.bus_loads@)
        &&& after.monitor.rows@ == Map::<u64, monitor::Latch>::empty()
        &&& after.monitor.seen@ == Map::<u64, u64>::empty()
        &&& after.sample_cover is None
        &&& after.markers@.len() == 0
        &&& after.pre_buffer@.len() == 0
        &&& after.post_roll is None
        &&& after.injected@.len() == 0
        &&& after.tx_list@ == rescheduled(self.tx_list@)
        &&& after.sysvars@ == vars
        &&& after.obs@ == bus_ingest::with_vars(
            self.obs@.reset(),
            self.channels@,
            vars,
            0,
            self.applied_stride_us,
            vars.len() as int,
        )
        &&& after.nodes_dirty == (self.nodes_dirty || after.obs@.streams.len()
            > self.obs@.streams.len())
        &&& after == (BusCore {
            sim_t_us: 0,
            sim_prev_us: 0,
            replay_blocks: after.replay_blocks,
            trace_paused: false,
            paused_at_us: None,
            scan_done: false,
            trace: after.trace,
            fr_trace: after.fr_trace,
            published_trace: after.published_trace,
            published_fr: after.published_fr,
            frame_counter: 0,
            aggs: after.aggs,
            fr_aggs: after.fr_aggs,
            bus_loads: after.bus_loads,
            monitor: after.monitor,
            sample_cover: None,
            markers: after.markers,
            pre_buffer: after.pre_buffer,
            post_roll: None,
            injected: after.injected,
            tx_list: after.tx_list,
            sysvars: after.sysvars,
            obs: after.obs,
            nodes_dirty: after.nodes_dirty,
            ..self
        })
    }

    /// Blanks everything that belongs to a run.
    #[verifier::rlimit(40)]
    pub fn reset_run(&mut self)
        requires
            old(self).wf(),
        ensures
            final(self).wf(),
            old(self).is_run_reset(*final(self)),
    {
        self.sim_t_us = 0;
        self.sim_prev_us = 0;
        rewind_blocks(&mut self.replay_blocks);
        self.trace_paused = false;
        self.paused_at_us = None;
        self.scan_done = false;
        self.clear_trace();
        self.frame_counter = 0;
        self.aggs.clear();
        self.fr_aggs.clear();
        clear_loads(&mut self.bus_loads);
        self.monitor = Monitor::new();
        self.sample_cover = None;
        self.markers = Vec::new();
        self.pre_buffer = VecDeque::new();
        self.post_roll = None;
        self.injected = Vec::new();
        reschedule(&mut self.tx_list);
        self.obs.reset();
        initialize(&mut self.sysvars);
        let opened: bool = publish_vars(
            &mut self.obs,
            &self.channels,
            &self.sysvars,
            0,
            self.applied_stride_us,
        );
        if opened {
            self.nodes_dirty = true;
        }
    }

    /// The core as a run begins: reset, measuring, and the script nodes armed.
    pub open spec fn is_begun(self, after: BusCore) -> bool {
        exists|reset: BusCore|
            {
                &&& #[trigger] self.is_run_reset(reset)
                &&& after.measuring
                &&& are_armed(
                    self.nodes@,
                    after.nodes@,
                    bus_types::var_keys(reset.sysvars@),
                )
                &&& after.nodes_dirty
                &&& after == (BusCore {
                    measuring: true,
                    nodes: after.nodes,
                    nodes_dirty: true,
                    ..reset
                })
            }
    }

    fn begin(&mut self, actions: &mut Vec<BusAction>)
        requires
            old(self).wf(),
        ensures
            final(self).wf(),
            old(self).is_begun(*final(self)),
            final(actions)@ == old(actions)@ + node_starts(
                old(self).nodes@,
                old(self).nodes@.len() as int,
            ),
    {
        self.reset_run();
        let ghost reset = *self;
        self.measuring = true;
        arm_nodes(&mut self.nodes, &self.sysvars, actions);
        self.nodes_dirty = true;
        assert(old(self).is_run_reset(reset));
    }

    /// A fresh virtual run: the old recording file is closed, the run state is
    /// blank, the enabled blocks are loaded, and a wanted recording is opened.
    pub open spec fn is_virtual_started(
        self,
        after: BusCore,
        logs: Seq<LogRead>,
        opened: Result<String, String>,
        status: Seq<char>,
        actions: Seq<BusAction>,
    ) -> bool {
        let picked = BusCore { mode: Mode::Virtual, run_mode: Mode::Virtual, ..self };
        exists|begun: BusCore|
            {
                let notes = load_notes(
                    begun.replay_blocks@,
                    after.replay_blocks@,
                    begun.replay_blocks@.len() as int,
                );
                &&& #[trigger] picked.is_begun(begun)
                &&& are_reloaded(
                    begun.replay_blocks@,
                    after.replay_blocks@,
                    self.channels@,
                    logs,
                    0,
                )
                &&& after == (BusCore {
                    replay_blocks: after.replay_blocks,
                    recorder: after.recorder,
                    ..begun
                })
                &&& after.recorder == (match opened {
                    Ok(path) => if self.recorder.recording {
                        Recorder { last_record: path, ..self.recorder }
                    } else {
                        self.recorder
                    },
                    Err(_) => self.recorder,
                })
                &&& status == (if self.recorder.recording {
                    record_status(opened)
                } else {
                    virtual_status(notes)
                })
                &&& actions == seq![BusAction::CloseRecorder, BusAction::VirtualSource]
                    + node_starts(self.nodes@, self.nodes@.len() as int)
            }
    }

    /// Starts a fresh virtual run. `logs` is what was read of each block's log,
    /// `opened` what opening the recording file gave where recording is on.
    #[verifier::rlimit(40)]
    pub fn start_virtual(
        &mut self,
        logs: Vec<LogRead>,
        opened: Result<String, String>,
        status: &mut String,
    ) -> (actions: Vec<BusAction>)
        requires
            old(self).wf(),
            logs_fit(rewound_blocks(old(self).replay_blocks@), old(self).channels@, logs@),
        ensures
            final(self).wf(),
            old(self).is_virtual_started(
                *final(self),
                logs@,
                opened,
                final(status)@,
                actions@,
            ),
    {
        let mut actions: Vec<BusAction> = Vec::new();
        actions.push(BusAction::CloseRecorder);
        actions.push(BusAction::VirtualSource);
        assert(actions@ =~= seq![BusAction::CloseRecorder, BusAction::VirtualSource]);
        self.mode = Mode::Virtual;
        self.run_mode = Mode::Virtual;
        let ghost picked = *self;
        self.begin(&mut actions);
        let ghost begun = *self;
        let notes: Vec<String> = load_blocks(
            &mut self.replay_blocks,
            &self.channels,
            logs,
            self.sim_t_us,
        );
        *status = virtual_line(&notes);
        if self.recorder.recording {
            *status = record_line(&opened);
            match opened {
                Ok(path) => {
                    self.recorder.last_record = path;
                },
                Err(_) => {},
            }
        }
        assert(picked.is_begun(begun));
        actions
    }

    /// Opening a log for replay: a failure is only reported; otherwise the
    /// generators stand down for what the log carries, recording is dropped, and
    /// the run begins.
    pub open spec fn is_replay_started(
        self,
        after: BusCore,
        path: Seq<char>,
        speed: Seq<char>,
        opened: Result<OpenedLog, String>,
        status: Seq<char>,
        actions: Seq<BusAction>,
    ) -> bool {
        match opened {
            Err(e) => {
                &&& after == self
                &&& status == "replay failed ["@ + path + "]: "@ + e@
                &&& actions.len() == 0
            },
            Ok(log) => {
                let picked = BusCore {
                    replay_ids: log.ids,
                    recorder: Recorder { recording: false, ..self.recorder },
                    mode: Mode::Replay,
                    run_mode: Mode::Replay,
                    ..self
                };
                &&& picked.is_begun(after)
                &&& status == replay_status(log.info@, speed)
                &&& actions == seq![BusAction::CloseRecorder, BusAction::ReplaySource]
                    + node_starts(self.nodes@, self.nodes@.len() as int)
            },
        }
    }

    /// Starts replaying a log that was opened. `speed` is how the speed prints.
    pub fn start_replay(
        &mut self,
        path: &str,
        speed: &str,
        opened: Result<OpenedLog, String>,
        status: &mut String,
    ) -> (actions: Vec<BusAction>)
        requires
            old(self).wf(),
        ensures
            final(self).wf(),
            old(self).is_replay_started(
                *final(self),
                path@,
                speed@,
                opened,
                final(status)@,
                actions@,
            ),
    {
        let mut actions: Vec<BusAction> = Vec::new();
        match opened {
            Err(e) => {
                *status = replay_failed(path, e.as_str());
            },
            Ok(log) => {
                actions.push(BusAction::CloseRecorder);
                actions.push(BusAction::ReplaySource);
                assert(actions@ =~= seq![BusAction::CloseRecorder, BusAction::ReplaySource]);
                self.replay_ids = log.ids;
                self.recorder.recording = false;
                self.mode = Mode::Replay;
                self.run_mode = Mode::Replay;
                self.begin(&mut actions);
                *status = replay_line(log.info.as_str(), speed);
            },
        }
        actions
    }

    /// Resumes a scrubbed replay in place; captured history is untouched.
    pub fn resume_replay(&mut self, speed: &str, status: &mut String)
        requires
            old(self).wf(),
        ensures
            final(self).wf(),
            *final(self) == (BusCore {
                sim_prev_us: 0,
                trace_paused: false,
                paused_at_us: None,
                measuring: true,
                ..*old(self)
            }),
            final(status)@ == "resumed at "@ + speed@ + "x"@,
    {
        self.sim_prev_us = 0;
        self.trace_paused = false;
        self.paused_at_us = None;
        self.measuring = true;
        *status = resumed_line(speed);
    }

    /// The stops of every script node.
    pub open spec fn node_stops(nodes: Seq<ScriptNode>) -> Seq<BusAction> {
        Seq::new(nodes.len(), |i: int| BusAction::StopNode(nodes[i].id))
    }

    /// Stops measuring and closes the recorder.
    pub fn stop_bus(&mut self, status: &mut String) -> (actions: Vec<BusAction>)
        requires
            old(self).wf(),
        ensures
            final(self).wf(),
            *final(self) == (BusCore { measuring: false, nodes_dirty: true, ..*old(self) }),
            final(status)@ == "stopped"@,
            actions@ == seq![BusAction::CloseRecorder] + BusCore::node_stops(old(self).nodes@),
    {
        self.measuring = false;
        let mut actions: Vec<BusAction> = Vec::new();
        actions.push(BusAction::CloseRecorder);
        for i in 0..self.nodes.len()
            invariant
                actions@ == seq![BusAction::CloseRecorder] + BusCore::node_stops(
                    self.nodes@,
                ).subrange(0, i as int),
        {
            actions.push(BusAction::StopNode(self.nodes[i].id));
            assert(actions@ =~= seq![BusAction::CloseRecorder] + BusCore::node_stops(
                self.nodes@,
            ).subrange(0, i + 1));
        }
        assert(BusCore::node_stops(self.nodes@).subrange(0, self.nodes@.len() as int)
            =~= BusCore::node_stops(self.nodes@));
        self.nodes_dirty = true;
        *status = "stopped".to_owned();
        actions
    }

    /// The Record switch is flipped. A manual stop is immediate; while stopped,
    /// switching it on waits for the next start.
    pub open spec fn is_record_toggled(
        self,
        after: BusCore,
        opened: Result<String, String>,
        status_before: Seq<char>,
        status: Seq<char>,
        actions: Seq<BusAction>,
    ) -> bool {
        &&& after.post_roll is None
        &&& after == (BusCore { post_roll: None, recorder: after.recorder, ..self })
        &&& if self.recorder.recording {
            &&& after.recorder == (Recorder { recording: false, ..self.recorder })
            &&& actions == seq![BusAction::CloseRecorder]
            &&& status == status_before
        } else if self.measuring {
            &&& after.recorder == (match opened {
                Ok(path) => Recorder { recording: true, last_record: path, ..self.recorder },
                Err(_) => self.recorder,
            })
            &&& actions.len() == 0
            &&& status == record_status(opened)
        } else {
            &&& after.recorder == (Recorder { recording: true, ..self.recorder })
            &&& actions.len() == 0
            &&& status == status_before
        }
    }

    /// Flips the Record switch. `opened` is what opening the file gave, where the
    /// switch goes on while measuring.
    pub fn toggle_record(&mut self, opened: Result<String, String>, status: &mut String) -> (actions:
        Vec<BusAction>)
        requires
            old(self).wf(),
        ensures
            final(self).wf(),
            old(self).is_record_toggled(
                *final(self),
                opened,
                old(status)@,
                final(status)@,
                actions@,
            ),
    {
        let mut actions: Vec<BusAction> = Vec::new();
        self.post_roll = None;
        if self.recorder.recording {
            actions.push(BusAction::CloseRecorder);
            assert(actions@ =~= seq![BusAction::CloseRecorder]);
            self.recorder.recording = false;
        } else if self.measuring {
            *status = record_line(&opened);
            match opened {
                Ok(path) => {
                    self.recorder.recording = true;
                    self.recorder.last_record = path;
                },
                Err(_) => {},
            }
        } else {
            self.recorder.recording = true;
        }
        actions
    }

    /// Folds frames in one after the other.
    fn ingest_all(&mut self, frames: &Vec<CanFrame>, stride: u64)
        requires
            old(self).wf(),
            frames_fit(frames@),
        ensures
            final(self).wf(),
            all_ingested(*old(self), *final(self), frames@, stride),
    {
        let ghost mut steps: Seq<BusCore> = seq![*self];
        let total: usize = frames.len();
        for i in 0..total
            invariant
                total == frames@.len(),
                frames_fit(frames@),
                self.wf(),
                steps.len() == i + 1,
                steps[0] == *old(self),
                steps[i as int] == *self,
                forall|k: int|
                    #![trigger frames@[k]]
                    0 <= k < i ==> takes_in(steps[k], steps[k + 1], frames@[k], stride),
        {
            let ghost held = steps;
            assert(frames@[i as int].wf());
            let r: Option<aggregate::Interval> = self.ingest(frames[i], stride);
            proof {
                steps = steps.push(*self);
                assert(steps[i as int].is_ingested(steps[i + 1], frames@[i as int], stride, r));
                assert forall|k: int|
                    #![trigger frames@[k]]
                    0 <= k < i + 1 implies takes_in(
                    steps[k],
                    steps[k + 1],
                    frames@[k],
                    stride,
                ) by {
                    if k < i {
                        assert(steps[k] == held[k] && steps[k + 1] == held[k + 1]);
                    }
                }
            }
        }
        assert(are_ingests(*old(self), frames@, stride, steps));
    }

    /// The core after an offline scan of a log: everything folded in, judged once,
    /// and parked for browsing.
    pub open spec fn is_parked(
        self,
        after: BusCore,
        frames: Seq<CanFrame>,
        tol_pct: u64,
        grace: u64,
        status: Seq<char>,
    ) -> bool {
        exists|full: BusCore|
            {
                &&& #[trigger] all_ingested(self, full, frames, self.applied_stride_us)
                &&& after.sim_t_us == latest_stamp(
                    full.aggs.items@,
                    full.aggs.items@.len() as int,
                )
                &&& after.monitor.rows@ == monitor::swept(
                    full.monitor.rows@,
                    full.monitor.seen@,
                    full.channels@,
                    full.aggs.items@,
                    after.sim_t_us,
                    full.is_live(),
                    tol_pct,
                    grace,
                    full.aggs.items@.len() as int,
                )
                &&& after.monitor.seen@ == monitor::noted(
                    full.monitor.seen@,
                    full.aggs.items@,
                    full.aggs.items@.len() as int,
                )
                &&& after.published_trace@ == full.trace@
                &&& after.published_fr@ == full.fr_trace@
                &&& !after.measuring
                &&& after.scan_done
                &&& status == "scan complete: "@ + text::decimal(frames.len() as int)
                    + " frame(s) ingested for browsing"@
                &&& after == (BusCore {
                    sim_t_us: after.sim_t_us,
                    monitor: after.monitor,
                    published_trace: after.published_trace,
                    published_fr: after.published_fr,
                    measuring: false,
                    scan_done: true,
                    ..full
                })
            }
    }

    /// An offline scan: refused while measuring, and a second time until a run restarts,
    /// for it would double every figure; otherwise the log is opened as for a replay and,
    /// if the bus is then on a log, all of it is folded in.
    pub open spec fn is_log_scanned(
        self,
        after: BusCore,
        path: Seq<char>,
        tol_pct: u64,
        grace: u64,
        opened: Result<OpenedLog, String>,
        frames: Seq<CanFrame>,
        status: Seq<char>,
        actions: Seq<BusAction>,
    ) -> bool {
        if self.measuring {
            &&& after == self
            &&& status == "scan needs a stopped measurement"@
            &&& actions.len() == 0
        } else if self.scan_done {
            &&& after == self
            &&& status == "scan refused: the log is scanned already"@
            &&& actions.len() == 0
        } else {
            exists|started: BusCore, line: Seq<char>|
                {
                    &&& #[trigger] self.is_replay_started(
                        started,
                        path,
                        "1"@,
                        opened,
                        line,
                        actions,
                    )
                    &&& if started.mode == Mode::Replay {
                        started.is_parked(after, frames, tol_pct, grace, status)
                    } else {
                        after == started && status == line
                    }
                }
        }
    }

    /// Offline analysis: folds a whole log in at once, without a playback clock,
    /// reactions or recording, so that every observer holds the full file. A second scan
    /// is refused; any run restart clears this. `frames` are the frames of the log.
    pub fn scan_log(
        &mut self,
        path: &str,
        tol_pct: u64,
        grace: u64,
        opened: Result<OpenedLog, String>,
        frames: &Vec<CanFrame>,
        status: &mut String,
    ) -> (actions: Vec<BusAction>)
        requires
            old(self).wf(),
            frames_fit(frames@),
        ensures
            final(self).wf(),
            old(self).is_log_scanned(
                *final(self),
                path@,
                tol_pct,
                grace,
                opened,
                frames@,
                final(status)@,
                actions@,
            ),
    {
        if self.measuring {
            *status = "scan needs a stopped measurement".to_owned();
            return Vec::new();
        }
        if self.scan_done {
            *status = "scan refused: the log is scanned already".to_owned();
            return Vec::new();
        }
        let actions: Vec<BusAction> = self.start_replay(path, "1", opened, status);
        let ghost started = *self;
        let ghost line = status@;
        assert(old(self).is_replay_started(started, path@, "1"@, opened, line, actions@));
        if self.mode != Mode::Replay {
            return actions;
        }
        let stride: u64 = self.applied_stride_us;
        self.ingest_all(frames, stride);
        let ghost full = *self;
        let mut latest: u64 = 0;
        for i in 0..self.aggs.items.len()
            invariant
                latest == latest_stamp(self.aggs.items@, i as int),
        {
            if self.aggs.items[i].1.last_t_us > latest {
                latest = self.aggs.items[i].1.last_t_us;
            }
        }
        self.sim_t_us = latest;
        self.check_spec(tol_pct, grace);
        self.publish_trace();
        self.measuring = false;
        self.scan_done = true;
        *status = scanned_line(frames.len() as u64);
        assert(all_ingested(started, full, frames@, started.applied_stride_us));
        assert(started.is_parked(*self, frames@, tol_pct, grace, status@));
        actions
    }

    /// The signal caches hold what the frames read, thinned to the stride, and the
    /// span counts as covered.
    pub open spec fn is_backfilled(
        self,
        after: BusCore,
        from: u64,
        to: u64,
        stride: u64,
        frames: Seq<CanFrame>,
        capped: bool,
        status_before: Seq<char>,
        status: Seq<char>,
    ) -> bool {
        &&& after.obs@.subs == Seq::new(
            self.obs@.subs.len(),
            |i: int| backfilled(self.obs@.subs[i], self.channels@, frames, stride),
        )
        &&& after.obs.streams == self.obs.streams
        &&& after.obs.color_counter == self.obs.color_counter
        &&& after.sample_cover == covered(self.sample_cover, from, to)
        &&& status == (if capped {
            "plot: window too dense to decode fully ("@ + text::decimal(
                MAX_SCAN_FRAMES as int,
            ) + ")"@
        } else {
            status_before
        })
        &&& after == (BusCore { obs: after.obs, sample_cover: after.sample_cover, ..self })
    }

    /// Decodes the frames of a span of the log into the signal caches. `frames`
    /// are what the scan gave, `capped` whether it stopped at its limit. The span
    /// that was asked for counts as covered either way: repeating an unsatisfied
    /// request would scan the same stretch forever.
    pub fn backfill(
        &mut self,
        from: u64,
        to: u64,
        stride: u64,
        frames: &Vec<CanFrame>,
        capped: bool,
        status: &mut String,
    )
        requires
            old(self).wf(),
            frames_fit(frames@),
        ensures
            final(self).wf(),
            old(self).is_backfilled(
                *final(self),
                from,
                to,
                stride,
                frames@,
                capped,
                old(status)@,
                final(status)@,
            ),
    {
        let ghost before = self.obs@.subs;
        let ghost goal = Seq::new(
            before.len(),
            |i: int| backfilled(before[i], self.channels@, frames@, stride),
        );
        let total: usize = self.obs.subs.len();
        for i in 0..total
            invariant
                total == before.len(),
                before == old(self).obs@.subs,
                self.obs.subs@.len() == total,
                frames_fit(frames@),
                self.obs.wf(),
                self.obs.streams == old(self).obs.streams,
                self.obs.color_counter == old(self).obs.color_counter,
                *self == (BusCore { obs: self.obs, ..*old(self) }),
                goal == Seq::new(
                    before.len(),
                    |i: int| backfilled(before[i], old(self).channels@, frames@, stride),
                ),
                forall|k: int|
                    0 <= k < i ==> observers::sub_state(#[trigger] self.obs.subs@[k]) == goal[k],
                forall|k: int|
                    i <= k < total ==> #[trigger] self.obs.subs@[k] == old(self).obs.subs@[k],
        {
            let all: Vec<(u64, Reading)> = read_signal(
                &self.channels,
                &self.obs.subs[i].key,
                frames,
            );
            let points: Vec<(u64, Reading)> = thin(&all, stride);
            assert(self.obs.subs@[i as int].wf());
            let ghost held = self.obs.subs@;
            let sub: &mut Subscription<Reading> = &mut self.obs.subs[i];
            let mut taken: Vec<Reading> = sub.history.merge(points.as_slice(), stride);
            let more: u64 = taken.len() as u64;
            sub.n = if sub.n <= u64::MAX - more {
                sub.n + more
            } else {
                u64::MAX
            };
            sub.pending.append(&mut taken);
            assert(before[i as int] == observers::sub_state(held[i as int]));
            assert(observers::sub_state(self.obs.subs@[i as int]) == goal[i as int]);
        }
        assert(self.obs@.subs =~= goal);
        self.sample_cover = cover_span(self.sample_cover, from, to);
        if capped {
            *status = dense_line();
        }
    }

    /// The playhead moved: every sampler resumes where it landed.
    pub open spec fn is_sought(
        self,
        after: BusCore,
        landed: Option<u64>,
        line: Seq<char>,
        status_before: Seq<char>,
        status: Seq<char>,
    ) -> bool {
        if self.mode != Mode::Replay {
            after == self && status == status_before
        } else {
            match landed {
                Some(t) => {
                    &&& after.obs@ == self.obs@.rewound(t)
                    &&& after == (BusCore { obs: after.obs, ..self })
                    &&& status == line
                },
                None => after == self && status == "seek: past end of log"@,
            }
        }
    }

    /// Takes note of a seek: where the source landed, and how the landing prints.
    pub fn seek_replay(&mut self, landed: Option<u64>, line: String, status: &mut String)
        requires
            old(self).wf(),
        ensures
            final(self).wf(),
            old(self).is_sought(*final(self), landed, line@, old(status)@, final(status)@),
    {
        if self.mode != Mode::Replay {
            return;
        }
        match landed {
            Some(t) => {
                self.obs.rewind(t);
                *status = line;
            },
            None => {
                *status = "seek: past end of log".to_owned();
            },
        }
    }

    /// When the bus next has work due.
    pub open spec fn deadline(
        self,
        now_us: u64,
        source_due: Option<u64>,
        node_dues: Seq<u64>,
    ) -> Option<u64> {
        if !self.measuring || self.trace_paused {
            None
        } else {
            let slot = next_slot(self.channels@, self.tx_list@, self.tx_list@.len() as int);
            let bus_due = match self.mode {
                Mode::Replay => source_due,
                Mode::Virtual => match slot {
                    Some(t) => Some(later(now_us, ahead(t, self.sim_t_us))),
                    None => None,
                },
            };
            sooner(bus_due, soonest(node_dues, node_dues.len() as int))
        }
    }

    /// The wall-clock instant the bus next has work due: the next replay frame
    /// (`source_due`), the next generator slot, or a running script node's timer
    /// (`node_dues`). Nothing where nothing is scheduled; paused or stopped buses
    /// are never due.
    pub fn next_deadline(&self, now_us: u64, source_due: Option<u64>, node_dues: &Vec<u64>) -> (r:
        Option<u64>)
        ensures
            r == self.deadline(now_us, source_due, node_dues@),
    {
        if !self.measuring || self.trace_paused {
            return None;
        }
        let mut slot: Option<u64> = None;
        for i in 0..self.tx_list.len()
            invariant
                slot == next_slot(self.channels@, self.tx_list@, i as int),
        {
            let t: &TxMsg = &self.tx_list[i];
            if t.active && t.cycle_us != 0 && is_gate_open(&self.channels, t) {
                slot = soonest_of(slot, Some(t.next_t_us));
            }
        }
        let bus_due: Option<u64> = match self.mode {
            Mode::Replay => source_due,
            Mode::Virtual => match slot {
                Some(t) => Some(saturating_later(now_us, gap(t, self.sim_t_us))),
                None => None,
            },
        };
        let mut node_due: Option<u64> = None;
        for i in 0..node_dues.len()
            invariant
                node_due == soonest(node_dues@, i as int),
        {
            node_due = soonest_of(node_due, Some(node_dues[i]));
        }
        soonest_of(bus_due, node_due)
    }

    /// A look at the wall clock between steps. Returns whether the bus runs on; where it
    /// is frozen, the first look keeps when that began.
    pub fn runs_on(&mut self, now_us: u64) -> (r: bool)
        requires
            old(self).wf(),
        ensures
            final(self).wf(),
            r == (old(self).measuring && !old(self).trace_paused),
            *final(self) == (BusCore {
                paused_at_us: if old(self).measuring && old(self).trace_paused
                    && old(self).paused_at_us is None {
                    Some(now_us)
                } else {
                    old(self).paused_at_us
                },
                ..*old(self)
            }),
    {
        if self.measuring && self.trace_paused && self.paused_at_us.is_none() {
            self.paused_at_us = Some(now_us);
        }
        self.measuring && !self.trace_paused
    }

    /// Tells the bus, before the step that ends a freeze, when the freeze began.
    pub fn resume_from(&mut self, began_us: u64)
        requires
            old(self).wf(),
        ensures
            final(self).wf(),
            *final(self) == (BusCore { paused_at_us: Some(began_us), ..*old(self) }),
    {
        self.paused_at_us = Some(began_us);
    }

    /// The clocks moved to the wall clock `now_us`: a span spent frozen is skipped
    /// rather than accumulated, and while a log is replayed the simulated clock is
    /// the log's.
    pub open spec fn is_advanced(self, after: BusCore, now_us: u64, shift: Option<u64>) -> bool {
        let prev = if self.paused_at_us is Some {
            now_us
        } else {
            self.sim_prev_us
        };
        &&& shift == (match self.paused_at_us {
            Some(t) => Some(ahead(now_us, t) as u64),
            None => None,
        })
        &&& after == (BusCore {
            paused_at_us: None,
            sim_prev_us: now_us,
            sim_t_us: if self.mode == Mode::Replay {
                self.sim_t_us
            } else {
                later(self.sim_t_us, ahead(now_us, prev))
            },
            ..self
        })
    }

    /// Advances the bus's clocks to the wall clock, before a step. Returns by how
    /// much the source's own clock is to be shifted.
    pub fn advance_clock(&mut self, now_us: u64) -> (shift: Option<u64>)
        requires
            old(self).wf(),
        ensures
            final(self).wf(),
            old(self).is_advanced(*final(self), now_us, shift),
    {
        let mut shift: Option<u64> = None;
        match self.paused_at_us {
            Some(t) => {
                shift = Some(gap(now_us, t));
                self.sim_prev_us = now_us;
            },
            None => {},
        }
        self.paused_at_us = None;
        if self.mode != Mode::Replay {
            self.sim_t_us = saturating_later(self.sim_t_us, gap(now_us, self.sim_prev_us));
        }
        self.sim_prev_us = now_us;
        shift
    }
}

/// A pause freezes the simulated clock: however long it lasted, the step after it
/// does not move the clock.
pub proof fn law_pause_freezes_the_clock(
    before: BusCore,
    after: BusCore,
    now_us: u64,
    shift: Option<u64>,
)
    requires
        before.is_advanced(after, now_us, shift),
        before.paused_at_us is Some,
    ensures
        after.sim_t_us == before.sim_t_us,
{
}

/// Two advances of a running simulation move its clock as one to the later
/// instant does.
pub proof fn law_clock_adds_up(
    a: BusCore,
    b: BusCore,
    c: BusCore,
    d: BusCore,
    t1: u64,
    t2: u64,
    s1: Option<u64>,
    s2: Option<u64>,
    s3: Option<u64>,
)
    requires
        a.paused_at_us is None,
        a.sim_prev_us <= t1 <= t2,
        a.is_advanced(b, t1, s1),
        b.is_advanced(c, t2, s2),
        a.is_advanced(d, t2, s3),
    ensures
        c.sim_t_us == d.sim_t_us,
        c == d,
{
}

/// A fresh run knows nothing of the one before: no frame, tally, verdict, marker
/// or pending request, and its clock is at zero.
pub proof fn law_a_run_starts_blank(before: BusCore, after: BusCore)
    requires
        before.is_run_reset(after),
    ensures
        after.sim_t_us == 0,
        after.trace@.len() == 0,
        after.aggs.items@.len() == 0,
        after.monitor.rows@.dom() =~= Set::<u64>::empty(),
        after.monitor.seen@.dom() =~= Set::<u64>::empty(),
        after.markers@.len() == 0,
        after.injected@.len() == 0,
        forall|i: int|
            0 <= i < after.tx_list@.len() ==> (#[trigger] after.tx_list@[i]).next_t_us == 0
                && after.tx_list@[i].active == before.tx_list@[i].active,
{
}

/// A log that was scanned is not folded in twice: until a run restarts, a further scan
/// leaves every figure as it is.
pub proof fn law_a_second_scan_is_refused(
    core: BusCore,
    first: BusCore,
    second: BusCore,
    path: Seq<char>,
    tol_pct: u64,
    grace: u64,
    opened: Result<OpenedLog, String>,
    frames: Seq<CanFrame>,
    told: Seq<char>,
    actions: Seq<BusAction>,
    again: Seq<char>,
    later: Seq<BusAction>,
)
    requires
        !core.measuring,
        opened is Ok,
        core.is_log_scanned(first, path, tol_pct, grace, opened, frames, told, actions),
        first.is_log_scanned(second, path, tol_pct, grace, opened, frames, again, later),
    ensures
        second == first,
        later.len() == 0,
{
}

} // verus!
